//! The instrument capability, and the binding of a table of instruments to
//! the rows of a sheet.
use vstd::prelude::*;

use crate::error::{ErrorView, P1Error};
use crate::keyed::{entries, insert_keyed, insert_row, lemma_insert_unique, unique_keys};
use crate::sample::Sample;
use crate::text::{decimal, decimal_of};

verus! {

/// A source of frames of `CHANNELS` channels.
pub trait Instrument<const CHANNELS: usize> {
    /// Whether the instrument can play with this channel count; an
    /// instrument that does not say is never ready.
    open spec fn spec_ready(&self) -> bool {
        false
    }

    /// The frame at index `id`, if there is one.
    open spec fn spec_get(&self, id: nat) -> Option<Sample<CHANNELS>> {
        None
    }

    /// Readies the instrument for this channel count.
    fn init(&self) -> (r: Result<(), String>)
        ensures
            r is Ok <==> self.spec_ready(),
    ;

    /// The frame at index `id`; `None` past the end.
    fn get(&self, id: u32) -> (r: Option<Sample<CHANNELS>>)
        ensures
            r == self.spec_get(id as nat),
    ;
}

/// An instrument with both a mono and a stereo view.
pub trait BiInstrument: Instrument<1> + Instrument<2> {

}

/// A key of an instrument table: a name, an integer, or anything else.
#[derive(Debug, Clone, PartialEq, Eq)]
pub enum TableKey {
    Name(String),
    Index(i64),
    Other,
}

pub enum KeyView {
    Name(Seq<char>),
    Index(int),
    Other,
}

impl View for TableKey {
    type V = KeyView;

    open spec fn view(&self) -> KeyView {
        match self {
            TableKey::Name(s) => KeyView::Name(s@),
            TableKey::Index(i) => KeyView::Index(*i as int),
            TableKey::Other => KeyView::Other,
        }
    }
}

/// Instruments in one of the two arrangements of a sheet: bound to names,
/// in the order the names first came, or by position.
pub enum Instruments<I> {
    Labelled(Vec<(String, I)>),
    Indexed(Vec<I>),
}

pub enum InstrumentsView<I> {
    Labelled(Seq<(Seq<char>, I)>),
    Indexed(Seq<I>),
}

impl<I> View for Instruments<I> {
    type V = InstrumentsView<I>;

    open spec fn view(&self) -> InstrumentsView<I> {
        match self {
            Instruments::Labelled(m) => InstrumentsView::Labelled(entries(m@)),
            Instruments::Indexed(l) => InstrumentsView::Indexed(l@),
        }
    }
}

/// Binding one more pair of a table. The first name or integer key fixes the
/// arrangement; after that, keys of the other kind are passed over, as are
/// keys that are neither. A value that is not an instrument fails the
/// binding with its key.
pub open spec fn bind_step<I>(
    acc: Result<Option<InstrumentsView<I>>, ErrorView>,
    key: KeyView,
    value: Option<I>,
) -> Result<Option<InstrumentsView<I>>, ErrorView> {
    match acc {
        Err(e) => Err(e),
        Ok(c) => {
            let c2 = match c {
                None => match key {
                    KeyView::Name(_) => Some(InstrumentsView::Labelled(seq![])),
                    KeyView::Index(_) => Some(InstrumentsView::Indexed(seq![])),
                    KeyView::Other => None,
                },
                Some(x) => Some(x),
            };
            match (c2, key) {
                (Some(InstrumentsView::Labelled(m)), KeyView::Name(s)) => match value {
                    Some(v) => Ok(Some(InstrumentsView::Labelled(insert_row(m, s, v)))),
                    None => Err(ErrorView::InstrumentUnknown(s)),
                },
                (Some(InstrumentsView::Indexed(l)), KeyView::Index(i)) => match value {
                    Some(v) => Ok(Some(InstrumentsView::Indexed(l.push(v)))),
                    None => Err(ErrorView::InstrumentUnknown(decimal(i))),
                },
                _ => Ok(c2),
            }
        },
    }
}

/// What binding the pairs `pairs`, in order, gives; `None` when no pair has
/// a name or integer key.
pub open spec fn bind_spec<I>(pairs: Seq<(KeyView, Option<I>)>) -> Result<
    Option<InstrumentsView<I>>,
    ErrorView,
>
    decreases pairs.len(),
{
    if pairs.len() == 0 {
        Ok(None)
    } else {
        bind_step(bind_spec(pairs.drop_last()), pairs.last().0, pairs.last().1)
    }
}

pub open spec fn pair_views<I>(pairs: Seq<(TableKey, Option<I>)>) -> Seq<(KeyView, Option<I>)> {
    pairs.map_values(|p: (TableKey, Option<I>)| (p.0@, p.1))
}

pub open spec fn bind_result<I>(r: Result<Option<Instruments<I>>, P1Error>) -> Result<
    Option<InstrumentsView<I>>,
    ErrorView,
> {
    match r {
        Ok(Some(c)) => Ok(Some(c@)),
        Ok(None) => Ok(None),
        Err(e) => Err(e@),
    }
}

/// Names stay unique in a labelled collection.
pub open spec fn well_formed<I>(c: InstrumentsView<I>) -> bool {
    match c {
        InstrumentsView::Labelled(m) => unique_keys(m),
        InstrumentsView::Indexed(_) => true,
    }
}

proof fn lemma_bind_well_formed<I>(pairs: Seq<(KeyView, Option<I>)>)
    ensures
        bind_spec(pairs) matches Ok(Some(c)) ==> well_formed(c),
    decreases pairs.len(),
{
    if pairs.len() > 0 {
        lemma_bind_well_formed(pairs.drop_last());
        let acc = bind_spec(pairs.drop_last());
        if let Ok(Some(InstrumentsView::Labelled(m))) = acc {
            if let KeyView::Name(s) = pairs.last().0 {
                if let Some(v) = pairs.last().1 {
                    lemma_insert_unique(m, s, v);
                }
            }
        }
        if let Ok(None) = acc {
            if let KeyView::Name(s) = pairs.last().0 {
                if let Some(v) = pairs.last().1 {
                    lemma_insert_unique(seq![], s, v);
                }
            }
        }
    }
}

proof fn lemma_bind_err<I>(pairs: Seq<(KeyView, Option<I>)>, k: int)
    requires
        0 <= k <= pairs.len(),
        bind_spec(pairs.take(k)) is Err,
    ensures
        bind_spec(pairs) == bind_spec(pairs.take(k)),
    decreases pairs.len(),
{
    if pairs.len() == k {
        assert(pairs.take(k) == pairs);
    } else {
        assert(pairs.drop_last().take(k) == pairs.take(k));
        lemma_bind_err(pairs.drop_last(), k);
    }
}

impl<I> Instruments<I> {
    /// Binds the pairs of an instrument table, in order. The first key that
    /// is a name or an integer decides the arrangement; `None` when there is
    /// no such key.
    pub fn from_lua_pairs(pairs: Vec<(TableKey, Option<I>)>) -> (r: Result<
        Option<Instruments<I>>,
        P1Error,
    >)
        ensures
            bind_result(r) == bind_spec(pair_views(pairs@)),
            r matches Ok(Some(c)) ==> well_formed(c@),
    {
        let ghost pv = pair_views(pairs@);
        let mut collection: Option<Instruments<I>> = None;
        for pair in it: pairs.into_iter()
            invariant
                it.seq() == pairs@,
                pv == pair_views(pairs@),
                bind_result::<I>(Ok(collection)) == bind_spec(pv.take(it.index() as int)),
        {
            let ghost k = it.index() as int;
            assert(pv.take(k + 1).drop_last() =~= pv.take(k));
            assert(pv.take(k + 1).last() == (pair.0@, pair.1));
            let (name, instrument) = pair;
            match (&collection, &name) {
                (None, TableKey::Name(_)) => {
                    let m: Vec<(String, I)> = Vec::new();
                    assert(entries(m@) =~= seq![]);
                    collection = Some(Instruments::Labelled(m));
                },
                (None, TableKey::Index(_)) => collection = Some(Instruments::Indexed(Vec::new())),
                _ => {},
            }
            match (&mut collection, name) {
                (Some(Instruments::Labelled(map)), TableKey::Name(s)) => {
                    match instrument {
                        Some(v) => insert_keyed(map, s, v),
                        None => {
                            proof {
                                lemma_bind_err(pv, k + 1);
                            }
                            return Err(P1Error::InstrumentUnknown(s));
                        },
                    }
                },
                (Some(Instruments::Indexed(list)), TableKey::Index(i)) => {
                    match instrument {
                        Some(v) => list.push(v),
                        None => {
                            let e = P1Error::InstrumentUnknown(decimal_of(i));
                            proof {
                                lemma_bind_err(pv, k + 1);
                            }
                            return Err(e);
                        },
                    }
                },
                _ => {},
            }
        }
        proof {
            assert(pv.take(pv.len() as int) == pv);
            lemma_bind_well_formed(pv);
        }
        Ok(collection)
    }
}

} // verus!
