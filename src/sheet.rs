//! The sheet notation: a header line that may set the loop range, then one
//! pattern row per line, optionally labelled.
use vstd::prelude::*;

use crate::error::{ErrorView, P1Error};
use crate::keyed::{entries, insert_keyed, insert_row, lemma_insert_map, lemma_insert_unique, unique_keys};
use crate::text::{chars_of, find, find_char, is_white_space, lemma_find, lines, lines_of, string_of, trim, trimmed, views, white_space};
use crate::timeline::{is_pattern, is_pattern_char, lemma_timeline_len, offsets, timeline, timeline_of, SourceIndexList};

verus! {

pub const SEPARATOR: char = '|';

pub const LOOP_START: char = '[';

pub const LOOP_END: char = ']';

pub const EMPTY: char = ' ';

/// The characters of `l` after its first separator, or all of `l`.
pub open spec fn content(l: Seq<char>) -> Seq<char> {
    match find(l, '|') {
        Some(p) => l.skip(p + 1 as int),
        None => l,
    }
}

/// The characters of `l` before its first separator, or none.
pub open spec fn prefix(l: Seq<char>) -> Seq<char> {
    match find(l, '|') {
        Some(p) => l.take(p as int),
        None => seq![],
    }
}

/// A row is kept when something other than white space follows its
/// optional separator; blank lines are comments.
pub open spec fn is_kept(l: Seq<char>) -> bool {
    exists|i: int| 0 <= i < content(l).len() && !is_white_space(#[trigger] content(l)[i])
}

/// The kept lines of `ls`, in order.
pub open spec fn kept_rows(ls: Seq<Seq<char>>) -> Seq<Seq<char>>
    decreases ls.len(),
{
    if ls.len() == 0 {
        seq![]
    } else if is_kept(ls.last()) {
        kept_rows(ls.drop_last()).push(ls.last())
    } else {
        kept_rows(ls.drop_last())
    }
}

/// The pattern text of a row: after its separator in a labelled sheet, the
/// whole line in an indexed one.
pub open spec fn pattern_text(labelled: bool, l: Seq<char>) -> Seq<char> {
    if labelled {
        content(l)
    } else {
        l
    }
}

/// The longest pattern text among `rows`.
pub open spec fn max_pattern_len(labelled: bool, rows: Seq<Seq<char>>) -> nat
    decreases rows.len(),
{
    if rows.len() == 0 {
        0
    } else {
        let m = max_pattern_len(labelled, rows.drop_last());
        let n = pattern_text(labelled, rows.last()).len();
        if m >= n {
            m
        } else {
            n
        }
    }
}

/// The number of columns from `start` to `end`, both included.
pub open spec fn width(start: int, end: int) -> nat {
    if start <= end + 1 {
        (end + 1 - start) as nat
    } else {
        0
    }
}

/// Columns `start..=end` of `p`, with `c` where `p` is too short.
pub open spec fn window(p: Seq<char>, start: int, end: int, c: char) -> Seq<char> {
    Seq::new(width(start, end), |k: int| if start + k < p.len() { p[start + k] } else { c })
}

/// The model of a parsed sheet: its inclusive loop range and its rows.
pub enum SheetView {
    Labelled { range: (nat, nat), rows: Seq<(Seq<char>, Seq<Option<nat>>)> },
    Indexed { range: (nat, nat), rows: Seq<Seq<Option<nat>>> },
}

impl SheetView {
    pub open spec fn range(self) -> (nat, nat) {
        match self {
            SheetView::Labelled { range, .. } => range,
            SheetView::Indexed { range, .. } => range,
        }
    }

    /// Every row is as long as the loop range is wide, and no label occurs
    /// twice.
    pub open spec fn well_formed(self) -> bool {
        &&& forall|k: int|
            0 <= k < self.timelines().len() ==> (#[trigger] self.timelines()[k]).len() == width(
                self.range().0 as int,
                self.range().1 as int,
            )
        &&& self matches SheetView::Labelled { rows, .. } ==> unique_keys(rows)
    }

    /// The timelines of the rows, in row order.
    pub open spec fn timelines(self) -> Seq<Seq<Option<nat>>> {
        match self {
            SheetView::Labelled { rows, .. } => rows.map_values(
                |e: (Seq<char>, Seq<Option<nat>>)| e.1,
            ),
            SheetView::Indexed { rows, .. } => rows,
        }
    }
}

/// The timelines of the labelled rows `rows`, each bound to its label; a
/// later row with the same label replaces the earlier one in its place.
pub open spec fn labelled_rows(rows: Seq<Seq<char>>, start: int, end: int) -> Seq<
    (Seq<char>, Seq<Option<nat>>),
>
    decreases rows.len(),
{
    if rows.len() == 0 {
        seq![]
    } else {
        insert_row(
            labelled_rows(rows.drop_last(), start, end),
            trim(prefix(rows.last())),
            timeline(window(content(rows.last()), start, end, ' ')),
        )
    }
}

/// What parsing `text` gives.
pub open spec fn parse_spec(text: Seq<char>) -> Result<SheetView, ErrorView> {
    let ls = lines_of(text);
    if ls.len() == 0 {
        Err(ErrorView::Sheet)
    } else {
        let header = ls[0];
        let labelled = find(header, '|') is Some;
        let markers = pattern_text(labelled, header);
        let rows = kept_rows(ls.skip(1));
        let start: nat = match find(markers, '[') {
            Some(s) => s,
            None => 0,
        };
        let end: Option<nat> = match find(markers, ']') {
            Some(e) => Some(e),
            None => if rows.len() > 0 {
                Some((max_pattern_len(labelled, rows) - 1) as nat)
            } else {
                None
            },
        };
        match end {
            None => Err(ErrorView::Sheet),
            Some(end) => parse_rows(labelled, rows, start, end),
        }
    }
}

/// Some row's window holds a character outside the notation.
pub open spec fn has_invalid_row(labelled: bool, rows: Seq<Seq<char>>, start: int, end: int) -> bool {
    exists|k: int|
        0 <= k < rows.len() && !is_pattern(
            #[trigger] window(pattern_text(labelled, rows[k]), start, end, ' '),
        )
}

/// What the kept rows `rows` give for the loop range `start..=end`.
pub open spec fn parse_rows(labelled: bool, rows: Seq<Seq<char>>, start: nat, end: nat) -> Result<
    SheetView,
    ErrorView,
> {
    if has_invalid_row(labelled, rows, start as int, end as int) {
        Err(ErrorView::Sheet)
    } else if labelled {
        Ok(
            SheetView::Labelled {
                range: (start, end),
                rows: labelled_rows(rows, start as int, end as int),
            },
        )
    } else {
        Ok(
            SheetView::Indexed {
                range: (start, end),
                rows: rows.map_values(
                    |l: Seq<char>| timeline(window(l, start as int, end as int, ' ')),
                ),
            },
        )
    }
}

/// A parsed sheet: an arrangement of per-row timelines and an inclusive
/// loop range of columns.
#[derive(Debug)]
pub enum Sheet {
    Labelled { range: (usize, usize), sheet: Vec<(String, SourceIndexList)> },
    Indexed { range: (usize, usize), sheet: Vec<SourceIndexList> },
}

pub open spec fn labelled_view(m: Seq<(String, SourceIndexList)>) -> Seq<
    (Seq<char>, Seq<Option<nat>>),
> {
    m.map_values(|e: (String, SourceIndexList)| (e.0@, offsets(e.1@)))
}

pub open spec fn indexed_view(m: Seq<SourceIndexList>) -> Seq<Seq<Option<nat>>> {
    m.map_values(|v: SourceIndexList| offsets(v@))
}

impl View for Sheet {
    type V = SheetView;

    open spec fn view(&self) -> SheetView {
        match self {
            Sheet::Labelled { range, sheet } => SheetView::Labelled {
                range: (range.0 as nat, range.1 as nat),
                rows: labelled_view(sheet@),
            },
            Sheet::Indexed { range, sheet } => SheetView::Indexed {
                range: (range.0 as nat, range.1 as nat),
                rows: indexed_view(sheet@),
            },
        }
    }
}

pub open spec fn sheet_result(r: Result<Sheet, P1Error>) -> Result<SheetView, ErrorView> {
    match r {
        Ok(s) => Ok(s@),
        Err(e) => Err(e@),
    }
}

impl Sheet {
    /// The inclusive loop range.
    pub fn loop_range(&self) -> (r: &(usize, usize))
        ensures
            (r.0 as nat, r.1 as nat) == self@.range(),
    {
        match self {
            Sheet::Labelled { range, .. } => range,
            Sheet::Indexed { range, .. } => range,
        }
    }

    /// The number of rows.
    pub fn len(&self) -> (r: usize)
        ensures
            r == self@.timelines().len(),
    {
        match self {
            Sheet::Labelled { sheet, .. } => sheet.len(),
            Sheet::Indexed { sheet, .. } => sheet.len(),
        }
    }
}

/// The characters `v[from..]`.
pub fn suffix(v: &Vec<char>, from: usize) -> (r: Vec<char>)
    requires
        from <= v@.len(),
    ensures
        r@ == v@.skip(from as int),
{
    let mut r: Vec<char> = Vec::new();
    let mut i: usize = from;
    while i < v.len()
        invariant
            from <= i <= v@.len(),
            r@ == v@.subrange(from as int, i as int),
        decreases v.len() - i,
    {
        r.push(v[i]);
        assert(v@.subrange(from as int, i + 1) == v@.subrange(from as int, i as int).push(
            v@[i as int],
        ));
        i = i + 1;
    }
    assert(v@.subrange(from as int, i as int) == v@.skip(from as int));
    r
}

/// Columns `start..=end` of `input`, padded with `c`.
pub fn window_of(input: &Vec<char>, start: usize, end: usize, c: char) -> (r: Vec<char>)
    requires
        end < usize::MAX,
    ensures
        r@ == window(input@, start as int, end as int, c),
{
    let mut r: Vec<char> = Vec::new();
    if start <= end {
        let mut i: usize = start;
        while i <= end
            invariant
                start <= end < usize::MAX,
                start <= i <= end + 1,
                r@ =~= window(input@, start as int, i - 1, c),
            decreases end + 1 - i,
        {
            if i < input.len() {
                r.push(input[i]);
            } else {
                r.push(c);
            }
            i = i + 1;
        }
    }
    assert(r@ =~= window(input@, start as int, end as int, c));
    r
}

/// Columns `start..=end` of `input`, padded with `c` where `input` is too
/// short.
pub fn split_pad_inclusive(input: &str, start: usize, end: usize, c: &char) -> (r: String)
    requires
        end < usize::MAX,
    ensures
        r@ == window(input@, start as int, end as int, *c),
{
    let v = chars_of(input);
    let w = window_of(&v, start, end, *c);
    string_of(&w, 0, w.len())
}

/// Whether every character of `v` belongs to the notation.
pub fn all_pattern(v: &Vec<char>) -> (r: bool)
    ensures
        r == is_pattern(v@),
{
    let mut i: usize = 0;
    while i < v.len()
        invariant
            i <= v@.len(),
            forall|j: int| 0 <= j < i ==> is_pattern_char(#[trigger] v@[j]),
        decreases v.len() - i,
    {
        let c = v[i];
        if !(c == 'o' || c == '[' || c == ']' || c == ' ' || c == '(' || c == ')') {
            return false;
        }
        i = i + 1;
    }
    true
}

proof fn lemma_content(l: Seq<char>)
    ensures
        match find(l, '|') {
            Some(p) => p < l.len() && content(l).len() == l.len() - p - 1,
            None => content(l) == l,
        },
{
    lemma_find(l, '|');
}

proof fn lemma_kept_rows(ls: Seq<Seq<char>>)
    ensures
        forall|k: int| 0 <= k < kept_rows(ls).len() ==> is_kept(#[trigger] kept_rows(ls)[k]),
    decreases ls.len(),
{
    if ls.len() > 0 {
        let prev = kept_rows(ls.drop_last());
        lemma_kept_rows(ls.drop_last());
        assert(forall|k: int| 0 <= k < prev.len() ==> kept_rows(ls)[k] == prev[k]);
    }
}

proof fn lemma_labelled_rows_unique(rows: Seq<Seq<char>>, start: int, end: int)
    ensures
        unique_keys(labelled_rows(rows, start, end)),
    decreases rows.len(),
{
    if rows.len() > 0 {
        let l = rows.last();
        lemma_labelled_rows_unique(rows.drop_last(), start, end);
        lemma_insert_unique(
            labelled_rows(rows.drop_last(), start, end),
            trim(prefix(l)),
            timeline(window(content(l), start, end, ' ')),
        );
    }
}

/// Every labelled row is as long as the loop range is wide.
pub proof fn lemma_labelled_rows_len(rows: Seq<Seq<char>>, start: int, end: int)
    ensures
        forall|k: int|
            0 <= k < labelled_rows(rows, start, end).len() ==> (#[trigger] labelled_rows(
                rows,
                start,
                end,
            )[k]).1.len() == width(start, end),
    decreases rows.len(),
{
    if rows.len() > 0 {
        let l = rows.last();
        let prev = labelled_rows(rows.drop_last(), start, end);
        lemma_labelled_rows_len(rows.drop_last(), start, end);
        lemma_timeline_len(window(content(l), start, end, ' '));
        crate::keyed::lemma_key_index(prev, trim(prefix(l)));
    }
}

proof fn lemma_max_pattern_len(labelled: bool, rows: Seq<Seq<char>>)
    requires
        rows.len() > 0,
        forall|k: int| 0 <= k < rows.len() ==> is_kept(#[trigger] rows[k]),
    ensures
        max_pattern_len(labelled, rows) >= 1,
{
    let l = rows.last();
    assert(is_kept(rows[rows.len() - 1]));
    lemma_content(l);
}

/// Whether `l[from..]` holds a character other than white space.
fn has_non_blank(l: &Vec<char>, from: usize) -> (r: bool)
    requires
        from <= l@.len(),
    ensures
        r == exists|i: int| from <= i < l@.len() && !is_white_space(#[trigger] l@[i]),
{
    let mut j: usize = from;
    while j < l.len()
        invariant
            from <= j <= l@.len(),
            forall|i: int| from <= i < j ==> is_white_space(#[trigger] l@[i]),
        decreases l.len() - j,
    {
        if !white_space(l[j]) {
            return true;
        }
        j = j + 1;
    }
    false
}

/// The lines after the header that hold a pattern.
fn kept_lines(ls: &Vec<Vec<char>>) -> (r: Vec<Vec<char>>)
    requires
        ls@.len() > 0,
    ensures
        views(r@) == kept_rows(views(ls@).skip(1)),
{
    let mut r: Vec<Vec<char>> = Vec::new();
    let mut k: usize = 1;
    while k < ls.len()
        invariant
            1 <= k <= ls@.len(),
            views(r@) == kept_rows(views(ls@).subrange(1, k as int)),
        decreases ls.len() - k,
    {
        let l = &ls[k];
        let ghost sub = views(ls@).subrange(1, k + 1);
        assert(sub.drop_last() =~= views(ls@).subrange(1, k as int));
        assert(sub.last() == l@);
        proof {
            lemma_content(l@);
        }
        let l_len = l.len();
        let from = match find_char(l, SEPARATOR) {
            Some(p) => p + 1,
            None => 0,
        };
        let keep = has_non_blank(l, from);
        assert(keep == is_kept(l@)) by {
            assert(content(l@) == l@.skip(from as int));
            if keep {
                let i = choose|i: int| from <= i < l@.len() && !is_white_space(l@[i]);
                assert(content(l@)[i - from] == l@[i]);
            }
        }
        if keep {
            let ghost before = r@;
            r.push(suffix(l, 0));
            assert(l@.skip(0) == l@);
            assert(views(r@) =~= views(before).push(l@));
        }
        k = k + 1;
    }
    assert(views(ls@).subrange(1, k as int) == views(ls@).skip(1));
    r
}

/// The length of the longest pattern text among `rows`.
fn max_pattern(labelled: bool, rows: &Vec<Vec<char>>) -> (r: usize)
    ensures
        r == max_pattern_len(labelled, views(rows@)),
{
    let mut m: usize = 0;
    let mut k: usize = 0;
    while k < rows.len()
        invariant
            k <= rows@.len(),
            m == max_pattern_len(labelled, views(rows@).take(k as int)),
        decreases rows.len() - k,
    {
        let l = &rows[k];
        proof {
            lemma_content(l@);
        }
        assert(views(rows@).take(k + 1).drop_last() =~= views(rows@).take(k as int));
        let n: usize = if labelled {
            match find_char(l, SEPARATOR) {
                Some(p) => l.len() - p - 1,
                None => l.len(),
            }
        } else {
            l.len()
        };
        if n > m {
            m = n;
        }
        k = k + 1;
    }
    assert(views(rows@).take(k as int) =~= views(rows@));
    m
}

/// Parses sheet text. The first line is the header: a `|` in it makes the
/// sheet labelled, and the first `[` and `]` after it (or in the whole line
/// of an indexed sheet) set the loop range, which otherwise runs from the
/// first column to the last column of the longest pattern. Columns count
/// from the start of the pattern text: after a row's first `|` in a labelled
/// sheet, where the text before it, trimmed, is the row's label. Each later
/// line with a pattern becomes a row whose timeline covers exactly the loop
/// range.
pub fn parse_sheet(text: &str) -> (r: Result<Sheet, P1Error>)
    ensures
        sheet_result(r) == parse_spec(text@),
        r matches Ok(s) ==> s@.well_formed(),
{
    let chars = chars_of(text);
    let ls = lines(&chars);
    if ls.len() == 0 {
        return Err(P1Error::Sheet);
    }
    let ghost lsv = views(ls@);
    assert(lsv == lines_of(text@));
    let header = &ls[0];
    assert(lsv[0] == header@);
    proof {
        lemma_content(header@);
    }
    let header_len = header.len();
    let sep = find_char(header, SEPARATOR);
    let labelled = sep.is_some();
    let markers = match sep {
        Some(p) => suffix(header, p + 1),
        None => suffix(header, 0),
    };
    assert(markers@ == pattern_text(labelled, header@));
    let markers_len = markers.len();
    let open = find_char(&markers, LOOP_START);
    let close = find_char(&markers, LOOP_END);
    proof {
        lemma_find(markers@, ']');
    }
    let rows = kept_lines(&ls);
    let ghost rv = views(rows@);
    proof {
        lemma_kept_rows(lsv.skip(1));
    }
    let start: usize = match open {
        Some(s) => s,
        None => 0,
    };
    let end: usize = match close {
        Some(e) => e,
        None => {
            if rows.len() == 0 {
                return Err(P1Error::Sheet);
            }
            proof {
                lemma_max_pattern_len(labelled, rv);
            }
            let m = max_pattern(labelled, &rows);
            m - 1
        },
    };
    assert(parse_spec(text@) == parse_rows(labelled, rv, start as nat, end as nat));
    if labelled {
        let mut sheet: Vec<(String, SourceIndexList)> = Vec::new();
        let mut k: usize = 0;
        while k < rows.len()
            invariant
                k <= rows@.len(),
                rv == views(rows@),
                end < usize::MAX,
                labelled,
                parse_spec(text@) == parse_rows(labelled, rv, start as nat, end as nat),
                labelled_view(sheet@) == labelled_rows(rv.take(k as int), start as int, end as int),
                forall|j: int|
                    0 <= j < k ==> is_pattern(
                        #[trigger] window(pattern_text(true, rv[j]), start as int, end as int, ' '),
                    ),
            decreases rows.len() - k,
        {
            let l = &rows[k];
            assert(rv[k as int] == l@);
            proof {
                lemma_content(l@);
            }
            let p = find_char(l, SEPARATOR);
            let (label, pat) = match p {
                Some(p) => {
                    let n = l.len();
                    assert(p < n);
                    (trimmed(l, 0, p), suffix(l, p + 1))
                },
                None => (String::new(), suffix(l, 0)),
            };
            assert(l@.subrange(0, 0) =~= seq![]);
            assert(label@ == trim(prefix(l@))) by {
                if p is Some {
                    assert(l@.subrange(0, p->0 as int) == l@.take(p->0 as int));
                } else {
                    assert(trim(seq![]) == Seq::<char>::empty());
                }
            }
            assert(pat@ == content(l@));
            let w = window_of(&pat, start, end, EMPTY);
            if !all_pattern(&w) {
                assert(!is_pattern(window(pattern_text(true, rv[k as int]), start as int, end as int, ' ')));
                assert(has_invalid_row(labelled, rv, start as int, end as int));
                return Err(P1Error::Sheet);
            }
            let t = timeline_of(&w);
            let ghost old_sheet = sheet@;
            let ghost f = |v: SourceIndexList| offsets(v@);
            let ghost g = |e: (Seq<char>, SourceIndexList)| (e.0, f(e.1));
            let ghost lv = label@;
            insert_keyed(&mut sheet, label, t);
            proof {
                lemma_insert_map(entries(old_sheet), lv, t, f);
                assert(labelled_view(old_sheet) =~= entries(old_sheet).map_values(g));
                assert(labelled_view(sheet@) =~= entries(sheet@).map_values(g));
                assert(rv.take(k + 1).drop_last() =~= rv.take(k as int));
            }
            k = k + 1;
        }
        assert(rv.take(k as int) == rv);
        proof {
            lemma_labelled_rows_len(rv, start as int, end as int);
            lemma_labelled_rows_unique(rv, start as int, end as int);
        }
        let r = Sheet::Labelled { range: (start, end), sheet };
        assert(r@.timelines().len() == labelled_rows(rv, start as int, end as int).len());
        assert forall|k: int| 0 <= k < r@.timelines().len() implies (#[trigger] r@.timelines()[k]).len()
            == width(start as int, end as int) by {
            assert(r@.timelines()[k] == labelled_rows(rv, start as int, end as int)[k].1);
        }
        Ok(r)
    } else {
        let mut sheet: Vec<SourceIndexList> = Vec::new();
        let mut k: usize = 0;
        while k < rows.len()
            invariant
                k <= rows@.len(),
                rv == views(rows@),
                end < usize::MAX,
                !labelled,
                parse_spec(text@) == parse_rows(labelled, rv, start as nat, end as nat),
                indexed_view(sheet@) =~= rv.take(k as int).map_values(
                    |l: Seq<char>| timeline(window(l, start as int, end as int, ' ')),
                ),
                forall|j: int|
                    0 <= j < k ==> is_pattern(
                        #[trigger] window(pattern_text(false, rv[j]), start as int, end as int, ' '),
                    ),
            decreases rows.len() - k,
        {
            let l = &rows[k];
            assert(rv[k as int] == l@);
            let w = window_of(l, start, end, EMPTY);
            if !all_pattern(&w) {
                assert(!is_pattern(window(pattern_text(false, rv[k as int]), start as int, end as int, ' ')));
                assert(has_invalid_row(labelled, rv, start as int, end as int));
                return Err(P1Error::Sheet);
            }
            let t = timeline_of(&w);
            let ghost before = sheet@;
            sheet.push(t);
            assert(indexed_view(sheet@) =~= indexed_view(before).push(offsets(t@)));
            assert(rv.take(k + 1) =~= rv.take(k as int).push(rv[k as int]));
            k = k + 1;
        }
        assert(rv.take(k as int) == rv);
        let r = Sheet::Indexed { range: (start, end), sheet };
        assert forall|k: int| 0 <= k < r@.timelines().len() implies (#[trigger] r@.timelines()[k]).len()
            == width(start as int, end as int) by {
            lemma_timeline_len(window(rv[k], start as int, end as int, ' '));
        }
        Ok(r)
    }
}

impl std::str::FromStr for Sheet {
    type Err = P1Error;

    fn from_str(text: &str) -> Result<Sheet, P1Error> {
        parse_sheet(text)
    }
}

} // verus!
