use vstd::prelude::*;
use vstd::string::*;

use crate::error::{Error, ErrorKind};
use crate::location::Location;

verus! {

/// One unit of a name pattern.
#[derive(Debug, PartialEq, Eq, PartialOrd, Ord)]
pub enum FilterPart {
    /// Zero or more characters, up to the first place where the next part fits.
    Star,
    /// Exactly one character.
    Wildcard,
    /// The given text, verbatim.
    Exact(String),
    /// Like `Star`, but the text taken must differ from the given one.
    Exclude(String),
}

/// A pattern part with its text as a sequence of characters.
pub enum PartView {
    Star,
    Wildcard,
    Exact(Seq<char>),
    Exclude(Seq<char>),
}

impl View for FilterPart {
    type V = PartView;

    open spec fn view(&self) -> PartView {
        match self {
            FilterPart::Star => PartView::Star,
            FilterPart::Wildcard => PartView::Wildcard,
            FilterPart::Exact(q) => PartView::Exact(q@),
            FilterPart::Exclude(t) => PartView::Exclude(t@),
        }
    }
}

impl Clone for FilterPart {
    fn clone(&self) -> (r: FilterPart)
        ensures
            r == *self,
    {
        match self {
            FilterPart::Star => FilterPart::Star,
            FilterPart::Wildcard => FilterPart::Wildcard,
            FilterPart::Exact(q) => FilterPart::Exact(q.clone()),
            FilterPart::Exclude(t) => FilterPart::Exclude(t.clone()),
        }
    }
}

/// A compiled name pattern: its parts, in order.
#[derive(Debug, Default, PartialEq, Eq, PartialOrd, Ord)]
pub struct Filter(pub Vec<FilterPart>);

impl View for Filter {
    type V = Seq<PartView>;

    open spec fn view(&self) -> Seq<PartView> {
        part_views(self.0@)
    }
}

impl Clone for Filter {
    fn clone(&self) -> (r: Filter)
        ensures
            r@ == self@,
    {
        let mut parts: Vec<FilterPart> = Vec::new();
        let mut i: usize = 0;
        while i < self.0.len()
            invariant
                i <= self.0@.len(),
                parts@ == self.0@.subrange(0, i as int),
            decreases self.0@.len() - i,
        {
            parts.push(self.0[i].clone());
            i = i + 1;
        }
        proof {
            assert(parts@ =~= self.0@);
        }
        Filter(parts)
    }
}

/// The views of a sequence of parts.
pub open spec fn part_views(ps: Seq<FilterPart>) -> Seq<PartView> {
    ps.map_values(|p: FilterPart| p@)
}

/// Where `part` stops when it starts taking characters of `s` at `p`, given
/// the parts `rest` that follow it; `None` when it cannot take anything there.
///
/// `Star` and `Exclude` take one character at a time and stop at the first
/// place where the next part could itself start (see `yield_point`).
pub open spec fn part_end(part: PartView, rest: Seq<PartView>, s: Seq<char>, p: int) -> Option<int>
    decreases rest.len(), s.len() - p + 1,
{
    if p < 0 || p > s.len() {
        None
    } else {
        match part {
            PartView::Star => Some(yield_point(rest, s, p)),
            PartView::Wildcard => if p < s.len() {
                Some(p + 1)
            } else {
                None
            },
            PartView::Exact(q) => if p + q.len() <= s.len() && s.subrange(p, p + q.len()) == q {
                Some(p + q.len())
            } else {
                None
            },
            PartView::Exclude(t) => {
                let e = yield_point(rest, s, p);
                if s.subrange(p, e) == t {
                    None
                } else {
                    Some(e)
                }
            },
        }
    }
}

/// The first position at or after `k` where the first part of `rest` can
/// start, or the end of `s` when there is none before it.
pub open spec fn yield_point(rest: Seq<PartView>, s: Seq<char>, k: int) -> int
    decreases rest.len(), s.len() - k,
{
    if k < 0 || k >= s.len() {
        s.len() as int
    } else if rest.len() > 0 && part_end(rest[0], rest.drop_first(), s, k) is Some {
        k
    } else {
        yield_point(rest, s, k + 1)
    }
}

/// What the parts `ps` take of `s` from position `p` on, part by part, when
/// together they take all of it.
pub open spec fn captures_from(ps: Seq<PartView>, s: Seq<char>, p: int) -> Option<
    Seq<(PartView, Seq<char>)>,
>
    decreases ps.len(),
{
    if ps.len() == 0 {
        if p == s.len() {
            Some(Seq::empty())
        } else {
            None
        }
    } else {
        match part_end(ps[0], ps.drop_first(), s, p) {
            None => None,
            Some(e) => match captures_from(ps.drop_first(), s, e) {
                None => None,
                Some(more) => Some(seq![(ps[0], s.subrange(p, e))] + more),
            },
        }
    }
}

/// What the pattern `ps` takes of `s`, part by part, when it takes all of it.
pub open spec fn captures(ps: Seq<PartView>, s: Seq<char>) -> Option<Seq<(PartView, Seq<char>)>> {
    captures_from(ps, s, 0)
}

/// The views of what `Filter::capture` returns: each part with the text it took.
pub open spec fn capture_views(v: Seq<(FilterPart, String)>) -> Seq<(PartView, Seq<char>)> {
    v.map_values(|c: (FilterPart, String)| (c.0@, c.1@))
}

/// `prefix` followed by `more`, when there is `more`.
pub open spec fn after_prefix<A>(prefix: Seq<A>, more: Option<Seq<A>>) -> Option<Seq<A>> {
    match more {
        Some(m) => Some(prefix + m),
        None => None,
    }
}

/// Characters with a meaning of their own in a pattern.
pub open spec fn is_special(c: char) -> bool {
    c == '*' || c == '?' || c == '!'
}

/// The end of the run of plain characters of `s` that starts at `i`.
pub open spec fn literal_end(s: Seq<char>, i: int) -> int
    decreases s.len() - i,
{
    if i < 0 || i >= s.len() || is_special(s[i]) {
        i
    } else {
        literal_end(s, i + 1)
    }
}

/// The first `)` of `s` at or after `i`, or the end of `s`.
pub open spec fn close_paren(s: Seq<char>, i: int) -> int
    decreases s.len() - i,
{
    if i < 0 || i >= s.len() || s[i] == ')' {
        i
    } else {
        close_paren(s, i + 1)
    }
}

/// A run of plain characters ends between where it starts and the end of the text.
pub proof fn lemma_literal_end_bounds(s: Seq<char>, i: int)
    requires
        0 <= i <= s.len(),
    ensures
        i <= literal_end(s, i) <= s.len(),
    decreases s.len() - i,
{
    if i < s.len() && !is_special(s[i]) {
        lemma_literal_end_bounds(s, i + 1);
    }
}

/// A `)` looked for from `i` on is found at or after `i`, and within the text.
pub proof fn lemma_close_paren_bounds(s: Seq<char>, i: int)
    requires
        0 <= i <= s.len(),
    ensures
        i <= close_paren(s, i) <= s.len(),
    decreases s.len() - i,
{
    if i < s.len() && s[i] != ')' {
        lemma_close_paren_bounds(s, i + 1);
    }
}

/// The parts that the pattern `s` compiles to from position `i` on, or
/// `None` when an exclusion there is malformed.
///
/// `*` and `?` stand alone, `!(text)` excludes `text`, and each maximal run
/// of other characters is one literal.
pub open spec fn parse_from(s: Seq<char>, i: int) -> Option<Seq<PartView>>
    decreases s.len() - i,
{
    if i < 0 || i >= s.len() {
        Some(Seq::empty())
    } else if s[i] == '*' {
        after_prefix(seq![PartView::Star], parse_from(s, i + 1))
    } else if s[i] == '?' {
        after_prefix(seq![PartView::Wildcard], parse_from(s, i + 1))
    } else if s[i] == '!' {
        if i + 1 < s.len() && s[i + 1] == '(' {
            let j = close_paren(s, i + 2);
            proof {
                lemma_close_paren_bounds(s, i + 2);
            }
            if j < s.len() {
                after_prefix(seq![PartView::Exclude(s.subrange(i + 2, j))], parse_from(s, j + 1))
            } else {
                None
            }
        } else {
            None
        }
    } else {
        let j = literal_end(s, i + 1);
        proof {
            lemma_literal_end_bounds(s, i + 1);
        }
        after_prefix(seq![PartView::Exact(s.subrange(i, j))], parse_from(s, j))
    }
}

/// The parts that the pattern `s` compiles to, or `None` when it is malformed.
pub open spec fn parse_pattern(s: Seq<char>) -> Option<Seq<PartView>> {
    parse_from(s, 0)
}

/// The shape of a compiled pattern: every literal is non-empty and free of
/// `*`, `?` and `!`, no two literals are next to each other, and no excluded
/// text holds a `)`.
pub open spec fn well_formed(ps: Seq<PartView>) -> bool {
    &&& forall|k: int|
        0 <= k < ps.len() ==> match #[trigger] ps[k] {
            PartView::Exact(q) => q.len() > 0 && forall|m: int| 0 <= m < q.len() ==> !is_special(
                #[trigger] q[m],
            ),
            PartView::Exclude(v) => forall|m: int| 0 <= m < v.len() ==> #[trigger] v[m] != ')',
            _ => true,
        }
    &&& forall|k: int|
        0 <= k < ps.len() - 1 ==> !((#[trigger] ps[k]) is Exact && ps[k + 1] is Exact)
}

proof fn lemma_literal_run(s: Seq<char>, i: int)
    requires
        0 <= i <= s.len(),
    ensures
        forall|k: int| i <= k < literal_end(s, i) ==> !is_special(#[trigger] s[k]),
        literal_end(s, i) < s.len() ==> is_special(s[literal_end(s, i)]),
    decreases s.len() - i,
{
    if i < s.len() && !is_special(s[i]) {
        lemma_literal_run(s, i + 1);
    }
}

proof fn lemma_close_paren_run(s: Seq<char>, i: int)
    requires
        0 <= i <= s.len(),
    ensures
        forall|k: int| i <= k < close_paren(s, i) ==> #[trigger] s[k] != ')',
    decreases s.len() - i,
{
    if i < s.len() && s[i] != ')' {
        lemma_close_paren_run(s, i + 1);
    }
}

proof fn lemma_prepend_well_formed(x: PartView, rest: Seq<PartView>)
    requires
        well_formed(rest),
        well_formed(seq![x]),
        x is Exact ==> !(rest.len() > 0 && rest[0] is Exact),
    ensures
        well_formed(seq![x] + rest),
{
    let ps = seq![x] + rest;
    assert forall|k: int| 0 <= k < ps.len() implies #[trigger] ps[k] == (if k == 0 { x } else { rest[k - 1] }) by {}
    assert(seq![x][0] == x);
    assert forall|k: int| 0 <= k < ps.len() - 1 implies !((#[trigger] ps[k]) is Exact && ps[k + 1] is Exact) by {
        if k > 0 {
            assert(ps[k] == rest[k - 1] && ps[k + 1] == rest[k]);
        }
    }
}

/// What pattern parsing produces has the shape of `well_formed`, and starts
/// with a literal only where the text at `i` is a plain character.
pub proof fn lemma_parse_from_shape(s: Seq<char>, i: int)
    requires
        0 <= i,
    ensures
        parse_from(s, i) matches Some(ps) ==> {
            &&& well_formed(ps)
            &&& ps.len() > 0 && ps[0] is Exact ==> i < s.len() && !is_special(s[i])
        },
    decreases s.len() - i,
{
    if i < s.len() {
        if s[i] == '*' || s[i] == '?' {
            lemma_parse_from_shape(s, i + 1);
            let x = if s[i] == '*' { PartView::Star } else { PartView::Wildcard };
            if let Some(rest) = parse_from(s, i + 1) {
                lemma_prepend_well_formed(x, rest);
            }
        } else if s[i] == '!' {
            if i + 1 < s.len() && s[i + 1] == '(' {
                let j = close_paren(s, i + 2);
                lemma_close_paren_bounds(s, i + 2);
                lemma_close_paren_run(s, i + 2);
                if j < s.len() {
                    lemma_parse_from_shape(s, j + 1);
                    let v = s.subrange(i + 2, j);
                    assert forall|m: int| 0 <= m < v.len() implies #[trigger] v[m] != ')' by {
                        assert(v[m] == s[i + 2 + m]);
                    }
                    if let Some(rest) = parse_from(s, j + 1) {
                        lemma_prepend_well_formed(PartView::Exclude(v), rest);
                    }
                }
            }
        } else {
            let j = literal_end(s, i + 1);
            lemma_literal_end_bounds(s, i + 1);
            lemma_literal_run(s, i + 1);
            lemma_parse_from_shape(s, j);
            let q = s.subrange(i, j);
            assert forall|m: int| 0 <= m < q.len() implies !is_special(#[trigger] q[m]) by {
                assert(q[m] == s[i + m]);
            }
            if let Some(rest) = parse_from(s, j) {
                lemma_prepend_well_formed(PartView::Exact(q), rest);
            }
        }
    } else {
        assert(parse_from(s, i) == Some(Seq::<PartView>::empty()));
    }
}

/// A pattern compiles to a well-formed sequence of parts whenever it compiles.
pub proof fn lemma_parse_well_formed(s: Seq<char>)
    ensures
        parse_pattern(s) matches Some(ps) ==> well_formed(ps),
{
    lemma_parse_from_shape(s, 0);
}

/// An optional position, as an optional integer.
pub open spec fn opt_int(r: Option<usize>) -> Option<int> {
    match r {
        Some(e) => Some(e as int),
        None => None,
    }
}

/// Where `part` stops in `expr` when it starts at `p`, the parts after it
/// being `rest[next..]`.
fn end_of(part: &FilterPart, rest: &[FilterPart], next: usize, expr: &str, n: usize, p: usize) -> (r:
    Option<usize>)
    requires
        next <= rest@.len(),
        n == expr@.len(),
        p <= n,
    ensures
        opt_int(r) == part_end(
            part@,
            part_views(rest@).subrange(next as int, rest@.len() as int),
            expr@,
            p as int,
        ),
        r matches Some(e) ==> p <= e <= n,
    decreases rest@.len() - next, 1int,
{
    match part {
        FilterPart::Wildcard => {
            if p < n {
                Some(p + 1)
            } else {
                None
            }
        },
        FilterPart::Exact(q) => {
            let qn = q.as_str().unicode_len();
            if qn > n - p {
                None
            } else {
                let seen = expr.substring_char(p, p + qn).to_owned();
                if seen == *q {
                    Some(p + qn)
                } else {
                    None
                }
            }
        },
        FilterPart::Star => {
            let e = yield_at(rest, next, expr, n, p);
            Some(e)
        },
        FilterPart::Exclude(t) => {
            let e = yield_at(rest, next, expr, n, p);
            let seen = expr.substring_char(p, e).to_owned();
            if seen == *t {
                None
            } else {
                Some(e)
            }
        },
    }
}

/// The first position at or after `p` where `rest[next]` can start in
/// `expr`, or the end of `expr`.
fn yield_at(rest: &[FilterPart], next: usize, expr: &str, n: usize, p: usize) -> (k: usize)
    requires
        next <= rest@.len(),
        n == expr@.len(),
        p <= n,
    ensures
        k == yield_point(
            part_views(rest@).subrange(next as int, rest@.len() as int),
            expr@,
            p as int,
        ),
        p <= k <= n,
    decreases rest@.len() - next, 0int,
{
    let ghost rv = part_views(rest@).subrange(next as int, rest@.len() as int);
    let mut k = p;
    while k < n
        invariant_except_break
            p <= k <= n,
            yield_point(rv, expr@, p as int) == yield_point(rv, expr@, k as int),
        invariant
            next <= rest@.len(),
            n == expr@.len(),
            rv == part_views(rest@).subrange(next as int, rest@.len() as int),
        ensures
            p <= k <= n,
            yield_point(rv, expr@, p as int) == k,
        decreases n - k,
    {
        if next < rest.len() {
            proof {
                assert(rv.drop_first() =~= part_views(rest@).subrange(
                    next + 1,
                    rest@.len() as int,
                ));
            }
            let found = end_of(&rest[next], rest, next + 1, expr, n, k);
            if found.is_some() {
                break;
            }
        }
        k = k + 1;
    }
    k
}

impl FilterPart {
    /// Takes the characters of `expr` that this part matches from `*offs` on,
    /// the parts that follow it being `rest`, and moves `*offs` past them.
    /// When the part cannot match there, `*offs` is left as it was.
    pub fn capture(&self, expr: &str, offs: &mut usize, rest: &[FilterPart]) -> (r: Option<String>)
        ensures
            match part_end(self@, part_views(rest@), expr@, *old(offs) as int) {
                Some(e) => {
                    &&& r matches Some(t)
                    &&& t@ == expr@.subrange(*old(offs) as int, e)
                    &&& *final(offs) == e
                },
                None => r is None && *final(offs) == *old(offs),
            },
    {
        let n = expr.unicode_len();
        if *offs > n {
            return None;
        }
        proof {
            assert(part_views(rest@).subrange(0, rest@.len() as int) =~= part_views(rest@));
        }
        match end_of(self, rest, 0, expr, n, *offs) {
            Some(e) => {
                let t = expr.substring_char(*offs, e).to_owned();
                *offs = e;
                Some(t)
            },
            None => None,
        }
    }
}

impl Filter {
    /// Whether the pattern takes all of `s`.
    pub fn matches(&self, s: &str) -> (r: bool)
        ensures
            r == captures(self@, s@) is Some,
    {
        self.capture(s).is_some()
    }

    /// What each part of the pattern takes of `expr`, in order, when the
    /// pattern takes all of it.
    pub fn capture(&self, expr: &str) -> (r: Option<Vec<(FilterPart, String)>>)
        ensures
            match captures(self@, expr@) {
                Some(cs) => r matches Some(v) && capture_views(v@) == cs,
                None => r is None,
            },
    {
        let n = expr.unicode_len();
        let parts = &self.0;
        let ghost pv = self@;
        let mut ret: Vec<(FilterPart, String)> = Vec::new();
        let mut offs: usize = 0;
        let mut i: usize = 0;
        proof {
            assert(pv.subrange(0, pv.len() as int) =~= pv);
            assert(capture_views(ret@) =~= Seq::<(PartView, Seq<char>)>::empty());
            match captures(pv, expr@) {
                Some(m) => {
                    assert(Seq::<(PartView, Seq<char>)>::empty() + m =~= m);
                },
                None => {},
            }
        }
        while i < parts.len()
            invariant
                n == expr@.len(),
                pv == self@,
                pv == part_views(parts@),
                i <= parts@.len(),
                offs <= n,
                captures(pv, expr@) == after_prefix(
                    capture_views(ret@),
                    captures_from(pv.subrange(i as int, pv.len() as int), expr@, offs as int),
                ),
            decreases parts@.len() - i,
        {
            let ghost sub = pv.subrange(i as int, pv.len() as int);
            proof {
                assert(sub.drop_first() =~= pv.subrange(i + 1, pv.len() as int));
                assert(sub[0] == parts@[i as int]@);
            }
            match end_of(&parts[i], parts.as_slice(), i + 1, expr, n, offs) {
                Some(e) => {
                    let t = expr.substring_char(offs, e).to_owned();
                    let ghost before = capture_views(ret@);
                    ret.push((parts[i].clone(), t));
                    proof {
                        assert(capture_views(ret@) =~= before + seq![(sub[0], expr@.subrange(offs as int, e as int))]);
                        match captures_from(pv.subrange(i + 1, pv.len() as int), expr@, e as int) {
                            Some(m) => {
                                assert(before + (seq![(sub[0], expr@.subrange(offs as int, e as int))] + m)
                                    =~= capture_views(ret@) + m);
                            },
                            None => {},
                        }
                    }
                    offs = e;
                },
                None => {
                    return None;
                },
            }
            i = i + 1;
        }
        proof {
            assert(pv.subrange(i as int, pv.len() as int) =~= Seq::<PartView>::empty());
            assert(capture_views(ret@) + Seq::<(PartView, Seq<char>)>::empty() =~= capture_views(ret@));
        }
        if offs < n {
            return None;
        }
        Some(ret)
    }
}

/// How a part is written in a pattern.
pub open spec fn part_text(p: PartView) -> Seq<char> {
    match p {
        PartView::Star => seq!['*'],
        PartView::Wildcard => seq!['?'],
        PartView::Exact(q) => q,
        PartView::Exclude(v) => seq!['!', '('] + v + seq![')'],
    }
}

/// How a sequence of parts is written in a pattern.
pub open spec fn pattern_text(ps: Seq<PartView>) -> Seq<char>
    decreases ps.len(),
{
    if ps.len() == 0 {
        Seq::empty()
    } else {
        pattern_text(ps.drop_last()) + part_text(ps.last())
    }
}

impl FilterPart {
    /// The part as it is written in a pattern.
    pub fn to_string(&self) -> (r: String)
        ensures
            r@ == part_text(self@),
    {
        proof {
            reveal_strlit("*");
            reveal_strlit("?");
            reveal_strlit("!(");
            reveal_strlit(")");
        }
        match self {
            FilterPart::Star => "*".to_owned(),
            FilterPart::Wildcard => "?".to_owned(),
            FilterPart::Exact(q) => q.clone(),
            FilterPart::Exclude(v) => "!(".to_owned().concat(v.as_str()).concat(")"),
        }
    }
}

impl Filter {
    /// The pattern as it is written: its parts one after the other.
    pub fn to_string(&self) -> (r: String)
        ensures
            r@ == pattern_text(self@),
    {
        let mut out = String::new();
        let mut i: usize = 0;
        while i < self.0.len()
            invariant
                i <= self.0@.len(),
                out@ == pattern_text(self@.subrange(0, i as int)),
            decreases self.0@.len() - i,
        {
            let t = self.0[i].to_string();
            out.append(t.as_str());
            proof {
                assert(self@.subrange(0, i + 1).drop_last() =~= self@.subrange(0, i as int));
            }
            i = i + 1;
        }
        proof {
            assert(self@.subrange(0, i as int) =~= self@);
        }
        out
    }
}

/// The error for a malformed exclusion in `pattern`.
fn exclusion_error(pattern: &str, location: Location) -> (e: Error)
    ensures
        e.spec_kind() == ErrorKind::IO,
{
    let message = "invalid filter exclusion pattern, expected '!(...)' in '".to_owned().concat(
        pattern,
    ).concat("'");
    Error::new(ErrorKind::IO, message, None, location)
}

impl Filter {
    /// Compiles a pattern: `*` is `Star`, `?` is `Wildcard`, `!(text)` is
    /// `Exclude(text)`, and each run of other characters is one `Exact`.
    /// Fails when a `!` is not followed by `(`, or a `!(` is never closed.
    pub fn parse(pattern: &str) -> (r: Result<Filter, Error>)
        ensures
            match parse_pattern(pattern@) {
                Some(ps) => r matches Ok(f) && f@ == ps,
                None => r matches Err(e) && e.spec_kind() == ErrorKind::IO,
            },
    {
        let n = pattern.unicode_len();
        let ghost s = pattern@;
        let mut parts: Vec<FilterPart> = Vec::new();
        let mut i: usize = 0;
        proof {
            assert(part_views(parts@) =~= Seq::<PartView>::empty());
            match parse_from(s, 0) {
                Some(m) => {
                    assert(Seq::<PartView>::empty() + m =~= m);
                },
                None => {},
            }
        }
        while i < n
            invariant
                n == s.len(),
                s == pattern@,
                i <= n,
                parse_from(s, 0) == after_prefix(part_views(parts@), parse_from(s, i as int)),
            decreases n - i,
        {
            let ghost before = part_views(parts@);
            let c = pattern.get_char(i);
            let part;
            if c == '*' {
                part = FilterPart::Star;
                i = i + 1;
            } else if c == '?' {
                part = FilterPart::Wildcard;
                i = i + 1;
            } else if c == '!' {
                if i + 1 >= n || pattern.get_char(i + 1) != '(' {
                    return Err(exclusion_error(pattern, Location::new("src/filter.rs", 757, 57)));
                }
                let mut j = i + 2;
                while j < n && pattern.get_char(j) != ')'
                    invariant
                        n == s.len(),
                        s == pattern@,
                        i + 2 <= j <= n,
                        close_paren(s, i + 2) == close_paren(s, j as int),
                    decreases n - j,
                {
                    j = j + 1;
                }
                if j >= n {
                    return Err(exclusion_error(pattern, Location::new("src/filter.rs", 771, 57)));
                }
                part = FilterPart::Exclude(pattern.substring_char(i + 2, j).to_owned());
                i = j + 1;
            } else {
                let mut j = i + 1;
                while j < n && !(pattern.get_char(j) == '*' || pattern.get_char(j) == '?'
                    || pattern.get_char(j) == '!')
                    invariant
                        n == s.len(),
                        s == pattern@,
                        i + 1 <= j <= n,
                        literal_end(s, i + 1) == literal_end(s, j as int),
                    decreases n - j,
                {
                    j = j + 1;
                }
                part = FilterPart::Exact(pattern.substring_char(i, j).to_owned());
                i = j;
            }
            parts.push(part);
            proof {
                assert(part_views(parts@) =~= before + seq![part@]);
                match parse_from(s, i as int) {
                    Some(m) => {
                        assert(before + (seq![part@] + m) =~= part_views(parts@) + m);
                    },
                    None => {},
                }
            }
        }
        proof {
            assert(part_views(parts@) + Seq::<PartView>::empty() =~= part_views(parts@));
        }
        Ok(Filter(parts))
    }
}

impl core::str::FromStr for Filter {
    type Err = Error;

    /// Compiles a pattern; see `Filter::parse`.
    fn from_str(s: &str) -> (r: Result<Filter, Error>)
        ensures
            match parse_pattern(s@) {
                Some(ps) => r matches Ok(f) && f@ == ps,
                None => r matches Err(e) && e.spec_kind() == ErrorKind::IO,
            },
    {
        Filter::parse(s)
    }
}

/// Compiles a pattern given on a command line; see `Filter::parse`.
pub fn parse_filter(value: &str) -> (r: Result<Filter, Error>)
    ensures
        match parse_pattern(value@) {
            Some(ps) => r matches Ok(f) && f@ == ps,
            None => r matches Err(e) && e.spec_kind() == ErrorKind::IO,
        },
{
    Filter::parse(value)
}

} // verus!
