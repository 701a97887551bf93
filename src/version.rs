//! Versions: parsing a version string against a format, rendering it back, comparing two
//! versions, and producing the next version by semantic increment and calendar update.
use crate::date::{CalendarDate, Date, is_valid_ymd};
use crate::error::VersionBumpError;
use crate::format::{
    FTok, Format, FormatToken, Scheme, Cal, CalSem, Sem, valid_format, format_text, ftoks, compile,
};
use crate::specifier::{CalSemSpecifier, SemanticLevel, Specifier};
use crate::decimal::{all_digits, is_digit, read_value, value_of};
use crate::text::{chars_eq, chars_of, push_all, range_eq, string_of};
use core::cmp::Ordering;
use core::marker::PhantomData;
use vstd::prelude::*;

verus! {

/// The model of a version token.
pub enum VTok {
    Value { value: int, spec: Specifier },
    Fixed(Seq<char>),
}

#[derive(Debug, Clone)]
pub enum VersionToken {
    Value { value: u32, spec: Specifier },
    Fixed(Vec<char>),
}

impl View for VersionToken {
    type V = VTok;

    open spec fn view(&self) -> VTok {
        match self {
            VersionToken::Value { value, spec } => VTok::Value { value: *value as int, spec: *spec },
            VersionToken::Fixed(t) => VTok::Fixed(t@),
        }
    }
}

pub open spec fn vtoks(v: Seq<VersionToken>) -> Seq<VTok> {
    v.map_values(|t: VersionToken| t@)
}

/// The format token a version token was read from.
pub open spec fn shape(t: VTok) -> FTok {
    match t {
        VTok::Value { spec, .. } => FTok::Spec(spec),
        VTok::Fixed(l) => FTok::Lit(l),
    }
}

pub open spec fn shapes(v: Seq<VTok>) -> Seq<FTok> {
    v.map_values(|t: VTok| shape(t))
}

pub open spec fn values_fit(v: Seq<VTok>) -> bool {
    forall|i: int|
        0 <= i < v.len() && #[trigger] v[i] is Value ==> 0 <= v[i]->value <= u32::MAX
}

pub open spec fn tok_text(t: VTok) -> Seq<char> {
    match t {
        VTok::Value { value, spec } => spec.render(value as nat),
        VTok::Fixed(l) => l,
    }
}

/// The version string the tokens are written as.
pub open spec fn render(v: Seq<VTok>) -> Seq<char>
    decreases v.len(),
{
    if v.len() == 0 {
        seq![]
    } else {
        render(v.drop_last()) + tok_text(v.last())
    }
}

/// Lexicographic order of the values from position `i` on.
pub open spec fn lex(a: Seq<VTok>, b: Seq<VTok>, i: int) -> Ordering
    decreases a.len() - i,
{
    if i < 0 || i >= a.len() || i >= b.len() {
        Ordering::Equal
    } else {
        match (a[i], b[i]) {
            (VTok::Value { value: x, .. }, VTok::Value { value: y, .. }) => if x < y {
                Ordering::Less
            } else if x > y {
                Ordering::Greater
            } else {
                lex(a, b, i + 1)
            },
            _ => lex(a, b, i + 1),
        }
    }
}

/// How two versions compare: only versions of the same shape (same literals, same
/// specifiers, same order) are comparable, and those by their values, left to right.
pub open spec fn compare(a: Seq<VTok>, b: Seq<VTok>) -> Option<Ordering> {
    if shapes(a) == shapes(b) {
        Some(lex(a, b, 0))
    } else {
        None
    }
}

pub open spec fn is_target(t: VTok, level: SemanticLevel) -> bool {
    t is Value && t->spec.level() == Some(level)
}

pub open spec fn target_before(v: Seq<VTok>, level: SemanticLevel, i: int) -> bool {
    exists|j: int| 0 <= j < i && #[trigger] is_target(v[j], level)
}

pub open spec fn has_target(v: Seq<VTok>, level: SemanticLevel) -> bool {
    target_before(v, level, v.len() as int)
}

/// A token after incrementing `level`: higher levels stay, lower levels become 0, and the
/// level itself goes up by one unless it was already bumped in this pass.
pub open spec fn bump(t: VTok, level: SemanticLevel, bumped: bool) -> VTok {
    match t {
        VTok::Value { value, spec } => match spec.level() {
            Some(l) => if l.rank() > level.rank() {
                t
            } else if l.rank() < level.rank() || bumped {
                VTok::Value { value: 0, spec }
            } else {
                VTok::Value { value: value + 1, spec }
            },
            None => t,
        },
        VTok::Fixed(_) => t,
    }
}

pub open spec fn incremented(v: Seq<VTok>, level: SemanticLevel) -> Seq<VTok> {
    Seq::new(v.len(), |i: int| bump(v[i], level, target_before(v, level, i)))
}

pub open spec fn increment_overflows(v: Seq<VTok>, level: SemanticLevel) -> bool {
    exists|i: int|
        0 <= i < v.len() && #[trigger] is_target(v[i], level) && !target_before(v, level, i)
            && v[i]->value >= u32::MAX
}

/// What incrementing `level` gives.
pub open spec fn increment_result(v: Seq<VTok>, level: SemanticLevel) -> Result<
    Seq<VTok>,
    VersionBumpError,
> {
    if !has_target(v, level) {
        Err(VersionBumpError::SemanticSpecifierNotInFormat { spec: level })
    } else if increment_overflows(v, level) {
        Err(VersionBumpError::ValueOverflow)
    } else {
        Ok(incremented(v, level))
    }
}

pub open spec fn is_cal(t: VTok) -> bool {
    t is Value && t->spec.unit() is Some
}

/// The value a calendar token takes on the date, `None` where it would be negative.
pub open spec fn date_val(t: VTok, d: CalendarDate) -> Option<int> {
    t->spec.date_value(d.year as int, d.month as int, d.week as int, d.day as int)
}

pub open spec fn year_negative(v: Seq<VTok>, d: CalendarDate) -> bool {
    exists|i: int| 0 <= i < v.len() && #[trigger] is_cal(v[i]) && date_val(v[i], d) is None
}

pub open spec fn cal_changes(t: VTok, d: CalendarDate) -> bool {
    is_cal(t) && date_val(t, d) is Some && date_val(t, d)->0 != t->value
}

pub open spec fn cal_changed_before(v: Seq<VTok>, d: CalendarDate, i: int) -> bool {
    exists|j: int| 0 <= j < i && #[trigger] cal_changes(v[j], d)
}

/// A token after moving to the date: calendar tokens take the date's value.
pub open spec fn recal(t: VTok, d: CalendarDate) -> VTok {
    if is_cal(t) && date_val(t, d) is Some {
        VTok::Value { value: date_val(t, d)->0, spec: t->spec }
    } else {
        t
    }
}

pub open spec fn updated(v: Seq<VTok>, d: CalendarDate) -> Seq<VTok> {
    Seq::new(v.len(), |i: int| recal(v[i], d))
}

/// What updating to the date gives.
pub open spec fn update_result(v: Seq<VTok>, d: CalendarDate) -> Result<
    Seq<VTok>,
    VersionBumpError,
> {
    if year_negative(v, d) {
        Err(VersionBumpError::NegativeYearValue { year: d.year })
    } else if !cal_changed_before(v, d, v.len() as int) {
        Err(VersionBumpError::NoCalendarChange)
    } else {
        Ok(updated(v, d))
    }
}

/// Whether a semantic token before position `i` was incremented in a combined pass: it is
/// the level asked for, and no calendar value had changed when the scan reached it.
pub open spec fn combined_bumped_before(
    v: Seq<VTok>,
    d: CalendarDate,
    level: SemanticLevel,
    i: int,
) -> bool {
    exists|j: int|
        0 <= j < i && #[trigger] is_target(v[j], level) && !cal_changed_before(v, d, j)
}

/// One token of the combined pass: calendar tokens follow the date; semantic tokens are
/// incremented only while no calendar value has changed, and otherwise stay as they are.
pub open spec fn combined_tok(v: Seq<VTok>, d: CalendarDate, level: SemanticLevel, i: int) -> VTok {
    if is_cal(v[i]) {
        recal(v[i], d)
    } else if cal_changed_before(v, d, i) {
        v[i]
    } else {
        bump(v[i], level, combined_bumped_before(v, d, level, i))
    }
}

pub open spec fn combined(v: Seq<VTok>, d: CalendarDate, level: SemanticLevel) -> Seq<VTok> {
    Seq::new(v.len(), |i: int| combined_tok(v, d, level, i))
}

pub open spec fn combined_overflows(v: Seq<VTok>, d: CalendarDate, level: SemanticLevel) -> bool {
    exists|i: int|
        0 <= i < v.len() && #[trigger] is_target(v[i], level) && !cal_changed_before(v, d, i)
            && !combined_bumped_before(v, d, level, i) && v[i]->value >= u32::MAX
}

/// What the combined update-or-increment gives.
pub open spec fn update_or_increment_result(
    v: Seq<VTok>,
    d: CalendarDate,
    level: SemanticLevel,
) -> Result<Seq<VTok>, VersionBumpError> {
    if year_negative(v, d) {
        Err(VersionBumpError::NegativeYearValue { year: d.year })
    } else if !has_target(v, level) {
        Err(VersionBumpError::SemanticSpecifierNotInFormat { spec: level })
    } else if combined_overflows(v, d, level) {
        Err(VersionBumpError::ValueOverflow)
    } else {
        Ok(combined(v, d, level))
    }
}

/// `r` is the result `e` describes.
pub open spec fn outcome_is<S: Scheme>(
    r: Result<Version<S>, VersionBumpError>,
    e: Result<Seq<VTok>, VersionBumpError>,
) -> bool {
    match e {
        Ok(t) => r is Ok && r->Ok_0@ == t,
        Err(x) => r is Err && r->Err_0 == x,
    }
}

/// An explicit date that names no real day.
pub open spec fn date_rejected(date: Date) -> bool {
    match date {
        Date::Explicit { year, month, day } => !is_valid_ymd(year as int, month as int, day as int),
        _ => false,
    }
}

/// `d` is a date that `date` may resolve to: the explicit date itself, or any real day
/// for the current date.
pub open spec fn resolves_to(date: Date, d: CalendarDate) -> bool {
    d.wf() && match date {
        Date::Explicit { year, month, day } => d.year == year && d.month == month && d.day == day,
        _ => true,
    }
}

/// The end of the run of ASCII digits that starts at `i`.
pub open spec fn run_end(s: Seq<char>, i: int) -> int
    decreases s.len() - i,
{
    if 0 <= i < s.len() && is_digit(s[i]) {
        run_end(s, i + 1)
    } else {
        i
    }
}

/// How the grammar of tokens `ft[ti..]` splits `s[pos..]`: the end position of each token's
/// match. A literal matches its own text; a specifier matches one or more digits, as many as
/// still let the rest match (greedy, backing off one digit at a time).
pub open spec fn split(ft: Seq<FTok>, ti: int, s: Seq<char>, pos: int) -> Option<Seq<int>>
    decreases ft.len() - ti, s.len() + 1,
{
    if ti < 0 || ti > ft.len() || pos < 0 || pos > s.len() {
        None
    } else if ti == ft.len() {
        if pos == s.len() {
            Some(seq![])
        } else {
            None
        }
    } else {
        match ft[ti] {
            FTok::Lit(l) => {
                let e = pos + l.len();
                if e <= s.len() && s.subrange(pos, e) == l {
                    match split(ft, ti + 1, s, e) {
                        Some(r) => Some(seq![e] + r),
                        None => None,
                    }
                } else {
                    None
                }
            },
            FTok::Spec(_) => {
                let k = run_end(s, pos);
                let k = if k > s.len() {
                    s.len() as int
                } else if k < pos {
                    pos
                } else {
                    k
                };
                try_ends(ft, ti, s, pos, k)
            },
        }
    }
}

/// The split for a specifier at `ti` that matches `s[pos..k]` or, failing that, a shorter
/// run of digits.
pub open spec fn try_ends(ft: Seq<FTok>, ti: int, s: Seq<char>, pos: int, k: int) -> Option<
    Seq<int>,
>
    decreases ft.len() - ti, k - pos,
{
    if ti < 0 || ti >= ft.len() || pos < 0 || k <= pos || k > s.len() {
        None
    } else {
        match split(ft, ti + 1, s, k) {
            Some(r) => Some(seq![k] + r),
            None => try_ends(ft, ti, s, pos, k - 1),
        }
    }
}

pub open spec fn start_of(e: Seq<int>, pos: int, k: int) -> int {
    if k == 0 {
        pos
    } else {
        e[k - 1]
    }
}

/// The tokens read from `s` when token `k` of `ft` matched `s[start_of(e, 0, k)..e[k]]`.
pub open spec fn parsed(ft: Seq<FTok>, s: Seq<char>, e: Seq<int>) -> Seq<VTok> {
    Seq::new(
        ft.len(),
        |k: int|
            match ft[k] {
                FTok::Spec(sp) => VTok::Value {
                    value: value_of(s.subrange(start_of(e, 0, k), e[k])),
                    spec: sp,
                },
                FTok::Lit(l) => VTok::Fixed(l),
            },
    )
}

/// The version that parsing `s` against the tokens gives, if the whole of `s` matches and
/// every value fits in `u32`.
pub open spec fn parse_result(ft: Seq<FTok>, s: Seq<char>) -> Option<Seq<VTok>> {
    match split(ft, 0, s, 0) {
        Some(e) => if values_fit(parsed(ft, s, e)) {
            Some(parsed(ft, s, e))
        } else {
            None
        },
        None => None,
    }
}

pub open spec fn piece_ok(t: FTok, s: Seq<char>, a: int, b: int) -> bool {
    0 <= a <= b <= s.len() && match t {
        FTok::Spec(_) => a < b && all_digits(s.subrange(a, b)),
        FTok::Lit(l) => s.subrange(a, b) == l,
    }
}

/// `e` splits `s[pos..]` into pieces that tokens `ft[ti..]` match, in order, to the end.
pub open spec fn good_from(ft: Seq<FTok>, ti: int, s: Seq<char>, pos: int, e: Seq<int>) -> bool {
    &&& 0 <= ti <= ft.len()
    &&& e.len() == ft.len() - ti
    &&& forall|k: int|
        0 <= k < e.len() ==> piece_ok(#[trigger] ft[ti + k], s, start_of(e, pos, k), e[k])
    &&& if e.len() == 0 {
        pos == s.len()
    } else {
        e.last() == s.len()
    }
}

proof fn lemma_run_digits(s: Seq<char>, pos: int, k: int)
    requires
        0 <= pos <= k <= run_end(s, pos),
        pos <= s.len(),
    ensures
        k <= s.len(),
        all_digits(s.subrange(pos, k)),
    decreases s.len() - pos,
{
    if k > pos {
        assert(pos < s.len() && is_digit(s[pos]));
        lemma_run_digits(s, pos + 1, k);
        assert forall|j: int| 0 <= j < k - pos implies is_digit(#[trigger] s.subrange(pos, k)[j]) by {
            if j > 0 {
                assert(s.subrange(pos, k)[j] == s.subrange(pos + 1, k)[j - 1]);
            }
        }
    }
}

proof fn lemma_run_end_bound(s: Seq<char>, pos: int)
    requires
        0 <= pos <= s.len(),
    ensures
        pos <= run_end(s, pos) <= s.len(),
    decreases s.len() - pos,
{
    if pos < s.len() && is_digit(s[pos]) {
        lemma_run_end_bound(s, pos + 1);
    }
}

pub(crate) proof fn lemma_split_good(ft: Seq<FTok>, ti: int, s: Seq<char>, pos: int)
    requires
        split(ft, ti, s, pos) is Some,
    ensures
        good_from(ft, ti, s, pos, split(ft, ti, s, pos)->0),
    decreases ft.len() - ti, s.len() + 1,
{
    if ti < ft.len() {
        match ft[ti] {
            FTok::Lit(l) => {
                let e = pos + l.len();
                lemma_split_good(ft, ti + 1, s, e);
                let rest = split(ft, ti + 1, s, e)->0;
                let r = seq![e] + rest;
                assert forall|k: int| 0 <= k < r.len() implies piece_ok(
                    #[trigger] ft[ti + k],
                    s,
                    start_of(r, pos, k),
                    r[k],
                ) by {
                    if k > 0 {
                        assert(ft[ti + k] == ft[(ti + 1) + (k - 1)]);
                    }
                }
            },
            FTok::Spec(_) => {
                lemma_run_end_bound(s, pos);
                lemma_try_good(ft, ti, s, pos, run_end(s, pos));
            },
        }
    }
}

proof fn lemma_try_good(ft: Seq<FTok>, ti: int, s: Seq<char>, pos: int, k: int)
    requires
        try_ends(ft, ti, s, pos, k) is Some,
        ft[ti] is Spec,
        k <= run_end(s, pos),
        pos <= s.len(),
    ensures
        good_from(ft, ti, s, pos, try_ends(ft, ti, s, pos, k)->0),
    decreases ft.len() - ti, k - pos,
{
    match split(ft, ti + 1, s, k) {
        Some(rest) => {
            lemma_split_good(ft, ti + 1, s, k);
            lemma_run_digits(s, pos, k);
            let r = seq![k] + rest;
            assert forall|m: int| 0 <= m < r.len() implies piece_ok(
                #[trigger] ft[ti + m],
                s,
                start_of(r, pos, m),
                r[m],
            ) by {
                if m > 0 {
                    assert(ft[ti + m] == ft[(ti + 1) + (m - 1)]);
                }
            }
        },
        None => {
            lemma_try_good(ft, ti, s, pos, k - 1);
        },
    }
}

pub open spec fn as_ints(v: Seq<usize>) -> Seq<int> {
    v.map_values(|x: usize| x as int)
}

fn cons(k: usize, rest: Vec<usize>) -> (r: Vec<usize>)
    ensures
        as_ints(r@) == seq![k as int] + as_ints(rest@),
{
    let mut r = rest;
    r.insert(0, k);
    assert(as_ints(r@) =~= seq![k as int] + as_ints(rest@));
    r
}

fn is_digit_exec(c: char) -> (r: bool)
    ensures
        r == is_digit(c),
{
    '0' <= c && c <= '9'
}

fn split_exec(ft: &Vec<FormatToken>, ti: usize, s: &Vec<char>, pos: usize) -> (r: Option<
    Vec<usize>,
>)
    requires
        ti <= ft@.len(),
        pos <= s@.len(),
    ensures
        match split(ftoks(ft@), ti as int, s@, pos as int) {
            Some(e) => r is Some && as_ints(r->0@) == e,
            None => r is None,
        },
    decreases ft@.len() - ti,
{
    let ghost t = ftoks(ft@);
    if ti == ft.len() {
        if pos == s.len() {
            let r: Vec<usize> = Vec::new();
            assert(as_ints(r@) =~= seq![]);
            return Some(r);
        } else {
            return None;
        }
    }
    assert(t[ti as int] == ft@[ti as int]@);
    match &ft[ti] {
        FormatToken::Literal(l) => {
            if l.len() <= s.len() - pos && range_eq(s, pos, pos + l.len(), l) {
                match split_exec(ft, ti + 1, s, pos + l.len()) {
                    Some(rest) => Some(cons(pos + l.len(), rest)),
                    None => None,
                }
            } else {
                None
            }
        },
        FormatToken::Specifier(_) => {
            let mut k: usize = pos;
            while k < s.len() && is_digit_exec(s[k])
                invariant
                    pos <= k <= s@.len(),
                    run_end(s@, pos as int) == run_end(s@, k as int),
                decreases s@.len() - k,
            {
                k = k + 1;
            }
            let next = ti + 1;
            assert(run_end(s@, k as int) == k);
            while k > pos
                invariant
                    pos <= k <= s@.len(),
                    ti < ft@.len(),
                    next == ti + 1,
                    t == ftoks(ft@),
                    split(t, ti as int, s@, pos as int) == try_ends(t, ti as int, s@, pos as int, k as int),
                decreases k - pos,
            {
                match split_exec(ft, next, s, k) {
                    Some(rest) => {
                        return Some(cons(k, rest));
                    },
                    None => {},
                }
                k = k - 1;
            }
            None
        },
    }
}

/// A version of scheme `S`: the tokens of a format, with the values read for its specifiers.
#[derive(Debug)]
pub struct Version<S: Scheme> {
    pub(crate) tokens: Vec<VersionToken>,
    pub(crate) scheme: PhantomData<S>,
}

impl<S: Scheme> View for Version<S> {
    type V = Seq<VTok>;

    open(crate) spec fn view(&self) -> Seq<VTok> {
        vtoks(self.tokens@)
    }
}

fn copy_chars(v: &Vec<char>) -> (r: Vec<char>)
    ensures
        r@ == v@,
{
    let mut r: Vec<char> = Vec::new();
    push_all(&mut r, v);
    assert(r@ =~= v@);
    r
}

impl VersionToken {
    fn copy(&self) -> (r: VersionToken)
        ensures
            r@ == self@,
    {
        match self {
            VersionToken::Value { value, spec } => VersionToken::Value { value: *value, spec: *spec },
            VersionToken::Fixed(t) => VersionToken::Fixed(copy_chars(t)),
        }
    }

    /// Whether two tokens have the same shape.
    fn same_shape(&self, o: &VersionToken) -> (r: bool)
        ensures
            r == (shape(self@) == shape(o@)),
    {
        match (self, o) {
            (VersionToken::Value { spec: a, .. }, VersionToken::Value { spec: b, .. }) => *a == *b,
            (VersionToken::Fixed(a), VersionToken::Fixed(b)) => chars_eq(a, b),
            _ => false,
        }
    }
}

impl<S: Scheme> Version<S> {
    /// Tokens whose shape is a valid format of scheme `S`, with values that fit in `u32`.
    pub open spec fn wf(&self) -> bool {
        valid_format(S::kind(), shapes(self@)) && values_fit(self@)
    }

    /// Makes a version from tokens whose shape is a valid format of scheme `S`.
    pub fn new(tokens: Vec<VersionToken>) -> (r: Self)
        requires
            valid_format(S::kind(), shapes(vtoks(tokens@))),
        ensures
            r@ == vtoks(tokens@),
            r.wf(),
    {
        Version { tokens, scheme: PhantomData }
    }

    /// Parses a version string against a format. The whole string must match: literals as
    /// written, each specifier as one or more ASCII digits taken greedily; every value must
    /// fit in `u32`. Calendar values are not checked to form a real date.
    pub fn parse(version_str: &str, format: &Format<S>) -> (r: Result<Self, VersionBumpError>)
        ensures
            match parse_result(format@, version_str@) {
                Some(t) => r is Ok && r->Ok_0@ == t,
                None => match r {
                    Err(VersionBumpError::VersionFormatMismatch { version_string, format_string }) =>
                        version_string@ == version_str@ && format_string@ == format_text(format@),
                    _ => false,
                },
            },
            format.wf() && r is Ok ==> r->Ok_0.wf(),
    {
        let s = chars_of(version_str);
        let ghost ft = format@;
        let ends = match split_exec(&format.tokens, 0, &s, 0) {
            Some(e) => e,
            None => {
                return Err(
                    VersionBumpError::VersionFormatMismatch {
                        version_string: version_str.to_owned(),
                        format_string: format.to_string(),
                    },
                );
            },
        };
        let ghost e = as_ints(ends@);
        proof {
            lemma_split_good(ft, 0, s@, 0);
        }
        let mut toks: Vec<VersionToken> = Vec::new();
        let mut k: usize = 0;
        while k < format.tokens.len()
            invariant
                ft == format@,
                e == as_ints(ends@),
                good_from(ft, 0, s@, 0, e),
                split(ft, 0, s@, 0) == Some(e),
                s@ == version_str@,
                k <= ft.len(),
                vtoks(toks@) == parsed(ft, s@, e).subrange(0, k as int),
            decreases ft.len() - k,
        {
            let start: usize = if k == 0 {
                0
            } else {
                ends[k - 1]
            };
            let end = ends[k];
            assert(start as int == start_of(e, 0, k as int));
            assert(piece_ok(ft[0 + k as int], s@, start as int, end as int));
            assert(ft[k as int] == format.tokens@[k as int]@);
            let nt = match &format.tokens[k] {
                FormatToken::Specifier(sp) => match read_value(&s, start, end) {
                    Some(n) => VersionToken::Value { value: n, spec: *sp },
                    None => {
                        let ghost p = parsed(ft, s@, e);
                        assert(p[k as int] is Value);
                        assert(p[k as int]->value == value_of(
                            s@.subrange(start as int, end as int),
                        ));
                        assert(!values_fit(p));
                        return Err(
                            VersionBumpError::VersionFormatMismatch {
                                version_string: version_str.to_owned(),
                                format_string: format.to_string(),
                            },
                        );
                    },
                },
                FormatToken::Literal(l) => VersionToken::Fixed(copy_chars(l)),
            };
            assert(nt@ == parsed(ft, s@, e)[k as int]);
            let ghost prev = toks@;
            let ghost nv = nt@;
            toks.push(nt);
            assert(vtoks(toks@) =~= vtoks(prev).push(nv));
            assert(parsed(ft, s@, e).subrange(0, k + 1) =~= parsed(ft, s@, e).subrange(
                0,
                k as int,
            ).push(nv));
            k = k + 1;
        }
        assert(parsed(ft, s@, e).subrange(0, ft.len() as int) =~= parsed(ft, s@, e));
        let r = Version { tokens: toks, scheme: PhantomData };
        proof {
            assert forall|i: int| 0 <= i < r@.len() && #[trigger] r@[i] is Value implies 0
                <= r@[i]->value <= u32::MAX by {
                assert(r@[i] == toks@[i]@);
            }
            assert(shapes(r@) =~= ft);
        }
        Ok(r)
    }

    /// Compiles `format_str` for scheme `S` and parses `version_str` against it.
    pub fn from_parsed_format(format_str: &str, version_str: &str) -> (r: Result<
        Self,
        VersionBumpError,
    >)
        ensures
            match compile(S::kind(), format_str@) {
                Ok(t) => match parse_result(t, version_str@) {
                    Some(v) => r is Ok && r->Ok_0@ == v && r->Ok_0.wf(),
                    None => match r {
                        Err(VersionBumpError::VersionFormatMismatch { version_string, .. }) =>
                            version_string@ == version_str@,
                        _ => false,
                    },
                },
                Err(k) => match r {
                    Err(VersionBumpError::InvalidFormat { kind, format_string }) => kind == k
                        && format_string@ == format_str@,
                    _ => false,
                },
            },
    {
        let format = Format::<S>::parse(format_str)?;
        Self::parse(version_str, &format)
    }

    /// The tokens, in order.
    pub fn tokens(&self) -> (r: &Vec<VersionToken>)
        ensures
            vtoks(r@) == self@,
    {
        &self.tokens
    }

    /// The version string.
    pub fn to_string(&self) -> (r: String)
        ensures
            r@ == render(self@),
    {
        let ghost v = self@;
        let mut out: Vec<char> = Vec::new();
        let mut i: usize = 0;
        assert(render(v.subrange(0, 0)) =~= seq![]);
        while i < self.tokens.len()
            invariant
                v == self@,
                i <= v.len(),
                out@ == render(v.subrange(0, i as int)),
            decreases v.len() - i,
        {
            let ghost sub = v.subrange(0, i + 1);
            assert(sub.drop_last() =~= v.subrange(0, i as int));
            assert(sub.last() == self.tokens@[i as int]@);
            match &self.tokens[i] {
                VersionToken::Value { value, spec } => spec.render_into(*value, &mut out),
                VersionToken::Fixed(t) => push_all(&mut out, t),
            }
            i = i + 1;
        }
        assert(v.subrange(0, v.len() as int) =~= v);
        string_of(&out)
    }

    /// The format this version was read from.
    pub fn format(&self) -> (r: Format<S>)
        requires
            self.wf(),
        ensures
            r@ == shapes(self@),
            r.wf(),
    {
        let mut toks: Vec<FormatToken> = Vec::new();
        let mut i: usize = 0;
        while i < self.tokens.len()
            invariant
                i <= self.tokens@.len(),
                ftoks(toks@) == shapes(self@).subrange(0, i as int),
            decreases self.tokens@.len() - i,
        {
            let t = match &self.tokens[i] {
                VersionToken::Value { spec, .. } => FormatToken::Specifier(*spec),
                VersionToken::Fixed(l) => FormatToken::Literal(copy_chars(l)),
            };
            assert(self@[i as int] == self.tokens@[i as int]@);
            assert(t@ == shapes(self@)[i as int]);
            let ghost prev = toks@;
            let ghost tv = t@;
            toks.push(t);
            assert(ftoks(toks@) =~= ftoks(prev).push(tv));
            assert(shapes(self@).subrange(0, i + 1) =~= shapes(self@).subrange(0, i as int).push(tv));
            i = i + 1;
        }
        assert(shapes(self@).subrange(0, i as int) =~= shapes(self@));
        Format { tokens: toks, scheme: PhantomData }
    }

    /// Compares two versions: `None` when their shapes differ, else by their values from
    /// left to right.
    pub fn compare(&self, other: &Version<S>) -> (r: Option<Ordering>)
        ensures
            r == compare(self@, other@),
    {
        let ghost a = self@;
        let ghost b = other@;
        if self.tokens.len() != other.tokens.len() {
            assert(shapes(a).len() != shapes(b).len());
            return None;
        }
        let mut i: usize = 0;
        while i < self.tokens.len()
            invariant
                a == self@,
                b == other@,
                a.len() == b.len(),
                i <= a.len(),
                forall|k: int| 0 <= k < i ==> shape(a[k]) == shape(b[k]),
            decreases a.len() - i,
        {
            if !self.tokens[i].same_shape(&other.tokens[i]) {
                assert(shapes(a)[i as int] != shapes(b)[i as int]);
                return None;
            }
            i = i + 1;
        }
        assert(shapes(a) =~= shapes(b));
        let mut j: usize = 0;
        while j < self.tokens.len()
            invariant
                a == self@,
                b == other@,
                a.len() == b.len(),
                j <= a.len(),
                shapes(a) == shapes(b),
                lex(a, b, 0) == lex(a, b, j as int),
            decreases a.len() - j,
        {
            assert(a[j as int] == self.tokens@[j as int]@);
            assert(b[j as int] == other.tokens@[j as int]@);
            match (&self.tokens[j], &other.tokens[j]) {
                (VersionToken::Value { value: x, .. }, VersionToken::Value { value: y, .. }) => {
                    if *x < *y {
                        return Some(Ordering::Less);
                    } else if *x > *y {
                        return Some(Ordering::Greater);
                    }
                },
                _ => {},
            }
            j = j + 1;
        }
        Some(Ordering::Equal)
    }
}

impl<S: Scheme> PartialEq for Version<S> {
    /// Equal versions have the same shape and the same values.
    fn eq(&self, other: &Self) -> (r: bool) {
        match self.compare(other) {
            Some(Ordering::Equal) => true,
            _ => false,
        }
    }
}

impl<S: Scheme> vstd::std_specs::cmp::PartialEqSpecImpl for Version<S> {
    open spec fn obeys_eq_spec() -> bool {
        true
    }

    open spec fn eq_spec(&self, other: &Self) -> bool {
        compare(self@, other@) == Some(Ordering::Equal)
    }
}

impl<S: Scheme> PartialOrd for Version<S> {
    fn partial_cmp(&self, other: &Self) -> (r: Option<Ordering>) {
        self.compare(other)
    }
}

impl<S: Scheme> vstd::std_specs::cmp::PartialOrdSpecImpl for Version<S> {
    open spec fn obeys_partial_cmp_spec() -> bool {
        true
    }

    open spec fn partial_cmp_spec(&self, other: &Self) -> Option<Ordering> {
        compare(self@, other@)
    }
}

impl Version<Sem> {
    /// Increments the value of `level`, resets lower levels to 0 and leaves higher levels
    /// as they are.
    pub fn increment(&self, level: &SemanticLevel) -> (r: Result<Self, VersionBumpError>)
        ensures
            outcome_is(r, increment_result(self@, *level)),
            self.wf() && r is Ok ==> r->Ok_0.wf(),
    {
        let ghost v = self@;
        let ghost lv = *level;
        let lvl = level.rank_exec();
        let mut toks: Vec<VersionToken> = Vec::new();
        let mut bumped = false;
        let mut i: usize = 0;
        while i < self.tokens.len()
            invariant
                v == self@,
                lv == *level,
                lvl as int == lv.rank(),
                i <= v.len(),
                vtoks(toks@) == incremented(v, lv).subrange(0, i as int),
                bumped == target_before(v, lv, i as int),
                forall|j: int|
                    0 <= j < i && #[trigger] is_target(v[j], lv) && !target_before(v, lv, j)
                        ==> v[j]->value < u32::MAX,
            decreases v.len() - i,
        {
            assert(v[i as int] == self.tokens@[i as int]@);
            let t = &self.tokens[i];
            let mut hit = false;
            let nt = match t {
                VersionToken::Value { value, spec } => match spec.level_exec() {
                    Some(l) => {
                        hit = l == *level;
                        let rk = l.rank_exec();
                        if rk > lvl {
                            t.copy()
                        } else if rk < lvl || bumped {
                            VersionToken::Value { value: 0, spec: *spec }
                        } else {
                            if *value == u32::MAX {
                                assert(is_target(v[i as int], lv));
                                assert(has_target(v, lv));
                                assert(increment_overflows(v, lv));
                                return Err(VersionBumpError::ValueOverflow);
                            }
                            VersionToken::Value { value: *value + 1, spec: *spec }
                        }
                    },
                    None => t.copy(),
                },
                VersionToken::Fixed(_) => t.copy(),
            };
            assert(hit == is_target(v[i as int], lv));
            assert(nt@ == incremented(v, lv)[i as int]);
            let ghost prev = toks@;
            let ghost nv = nt@;
            toks.push(nt);
            assert(vtoks(toks@) =~= vtoks(prev).push(nv));
            assert(incremented(v, lv).subrange(0, i + 1) =~= incremented(v, lv).subrange(
                0,
                i as int,
            ).push(nv));
            proof {
                if hit {
                    assert(target_before(v, lv, i + 1));
                } else if target_before(v, lv, i + 1) {
                    let j = choose|j: int| 0 <= j < i + 1 && #[trigger] is_target(v[j], lv);
                    assert(j < i);
                }
                assert forall|j: int|
                    0 <= j < i + 1 && #[trigger] is_target(v[j], lv) && !target_before(v, lv, j)
                        implies v[j]->value < u32::MAX by {
                    if j == i {
                        assert(!bumped);
                    }
                }
            }
            bumped = bumped || hit;
            i = i + 1;
        }
        assert(incremented(v, lv).subrange(0, v.len() as int) =~= incremented(v, lv));
        if !bumped {
            return Err(VersionBumpError::SemanticSpecifierNotInFormat { spec: *level });
        }
        let r = Version { tokens: toks, scheme: PhantomData };
        proof {
            assert(shapes(r@) =~= shapes(v));
            if values_fit(v) {
                assert forall|k: int| 0 <= k < r@.len() && #[trigger] r@[k] is Value implies 0
                    <= r@[k]->value <= u32::MAX by {
                    assert(r@[k] == incremented(v, lv)[k]);
                }
            }
        }
        Ok(r)
    }
}

impl Version<Cal> {
    /// Moves every calendar value to the given resolved date.
    pub fn update_to(&self, date: &CalendarDate) -> (r: Result<Self, VersionBumpError>)
        ensures
            outcome_is(r, update_result(self@, *date)),
            self.wf() && r is Ok ==> r->Ok_0.wf(),
    {
        let ghost v = self@;
        let ghost d = *date;
        let mut toks: Vec<VersionToken> = Vec::new();
        let mut changed = false;
        let mut i: usize = 0;
        while i < self.tokens.len()
            invariant
                v == self@,
                d == *date,
                i <= v.len(),
                vtoks(toks@) == updated(v, d).subrange(0, i as int),
                changed == cal_changed_before(v, d, i as int),
                forall|j: int| 0 <= j < i && #[trigger] is_cal(v[j]) ==> date_val(v[j], d) is Some,
            decreases v.len() - i,
        {
            assert(v[i as int] == self.tokens@[i as int]@);
            let t = &self.tokens[i];
            let mut moved = false;
            let nt = match t {
                VersionToken::Value { value, spec } => if spec.unit_exec().is_some() {
                    match spec.date_value_exec(date.year, date.month, date.week, date.day) {
                        None => {
                            assert(is_cal(v[i as int]));
                            assert(year_negative(v, d));
                            return Err(VersionBumpError::NegativeYearValue { year: date.year });
                        },
                        Some(n) => {
                            moved = n != *value;
                            VersionToken::Value { value: n, spec: *spec }
                        },
                    }
                } else {
                    t.copy()
                },
                VersionToken::Fixed(_) => t.copy(),
            };
            assert(moved == cal_changes(v[i as int], d));
            assert(nt@ == updated(v, d)[i as int]);
            let ghost prev = toks@;
            let ghost nv = nt@;
            toks.push(nt);
            assert(vtoks(toks@) =~= vtoks(prev).push(nv));
            assert(updated(v, d).subrange(0, i + 1) =~= updated(v, d).subrange(0, i as int).push(
                nv,
            ));
            proof {
                if moved {
                    assert(cal_changed_before(v, d, i + 1));
                } else if cal_changed_before(v, d, i + 1) {
                    let j = choose|j: int| 0 <= j < i + 1 && #[trigger] cal_changes(v[j], d);
                    assert(j < i);
                }
            }
            changed = changed || moved;
            i = i + 1;
        }
        assert(updated(v, d).subrange(0, v.len() as int) =~= updated(v, d));
        assert(!year_negative(v, d));
        if !changed {
            return Err(VersionBumpError::NoCalendarChange);
        }
        let r = Version { tokens: toks, scheme: PhantomData };
        proof {
            assert(shapes(r@) =~= shapes(v));
            assert forall|k: int| 0 <= k < r@.len() && #[trigger] r@[k] is Value implies 0
                <= r@[k]->value <= u32::MAX by {
                assert(r@[k] == toks@[k]@);
            }
        }
        Ok(r)
    }

    /// Moves every calendar value to the given date, resolving it first.
    pub fn update(&self, date: &Date) -> (r: Result<Self, VersionBumpError>)
        ensures
            match *date {
                Date::Explicit { year, month, day } => !is_valid_ymd(
                    year as int,
                    month as int,
                    day as int,
                ) ==> r is Err && r->Err_0 == VersionBumpError::InvalidDateArguments {
                    year,
                    month,
                    day,
                },
                _ => true,
            },
            !date_rejected(*date) ==> exists|d: CalendarDate|
                #[trigger] resolves_to(*date, d) && outcome_is(r, update_result(self@, d)),
            self.wf() && r is Ok ==> r->Ok_0.wf(),
    {
        let d = date.get_date()?;
        let r = self.update_to(&d);
        assert(resolves_to(*date, d));
        r
    }
}

impl Version<CalSem> {
    /// Moves every calendar value to the given resolved date, and increments `which` only
    /// while, scanning left to right, no calendar value has changed yet.
    pub fn update_or_increment_to(&self, date: &CalendarDate, which: &CalSemSpecifier) -> (r:
        Result<Self, VersionBumpError>)
        ensures
            outcome_is(r, update_or_increment_result(self@, *date, which.as_level())),
            self.wf() && r is Ok ==> r->Ok_0.wf(),
    {
        let ghost v = self@;
        let ghost d = *date;
        let level = which.spec();
        let ghost lv = level;
        let lvl = level.rank_exec();
        let mut toks: Vec<VersionToken> = Vec::new();
        let mut changed = false;
        let mut bumped = false;
        let mut found = false;
        let mut overflow = false;
        let mut i: usize = 0;
        while i < self.tokens.len()
            invariant
                v == self@,
                d == *date,
                lv == level,
                lvl as int == lv.rank(),
                i <= v.len(),
                !overflow ==> vtoks(toks@) == combined(v, d, lv).subrange(0, i as int),
                changed == cal_changed_before(v, d, i as int),
                bumped == combined_bumped_before(v, d, lv, i as int),
                found == target_before(v, lv, i as int),
                overflow == exists|j: int|
                    0 <= j < i && #[trigger] is_target(v[j], lv) && !cal_changed_before(v, d, j)
                        && !combined_bumped_before(v, d, lv, j) && v[j]->value >= u32::MAX,
                forall|j: int| 0 <= j < i && #[trigger] is_cal(v[j]) ==> date_val(v[j], d) is Some,
            decreases v.len() - i,
        {
            assert(v[i as int] == self.tokens@[i as int]@);
            let t = &self.tokens[i];
            let mut moved = false;
            let mut hit = false;
            let mut over = false;
            let nt = match t {
                VersionToken::Value { value, spec } => if spec.unit_exec().is_some() {
                    match spec.date_value_exec(date.year, date.month, date.week, date.day) {
                        None => {
                            assert(is_cal(v[i as int]));
                            assert(year_negative(v, d));
                            return Err(VersionBumpError::NegativeYearValue { year: date.year });
                        },
                        Some(n) => {
                            moved = n != *value;
                            VersionToken::Value { value: n, spec: *spec }
                        },
                    }
                } else {
                    match spec.level_exec() {
                        Some(l) => {
                            hit = l == level;
                            if changed {
                                t.copy()
                            } else {
                                let rk = l.rank_exec();
                                if rk > lvl {
                                    t.copy()
                                } else if rk < lvl || bumped {
                                    VersionToken::Value { value: 0, spec: *spec }
                                } else if *value == u32::MAX {
                                    over = true;
                                    VersionToken::Value { value: 0, spec: *spec }
                                } else {
                                    VersionToken::Value { value: *value + 1, spec: *spec }
                                }
                            }
                        },
                        None => t.copy(),
                    }
                },
                VersionToken::Fixed(_) => t.copy(),
            };
            assert(moved == cal_changes(v[i as int], d));
            assert(hit == is_target(v[i as int], lv));
            assert(over == (is_target(v[i as int], lv) && !cal_changed_before(v, d, i as int)
                && !combined_bumped_before(v, d, lv, i as int) && v[i as int]->value >= u32::MAX));
            assert(!over ==> nt@ == combined(v, d, lv)[i as int]);
            let ghost prev = toks@;
            let ghost nv = nt@;
            toks.push(nt);
            assert(vtoks(toks@) =~= vtoks(prev).push(nv));
            assert(combined(v, d, lv).subrange(0, i + 1) =~= combined(v, d, lv).subrange(
                0,
                i as int,
            ).push(nv) || over);
            proof {
                if moved {
                    assert(cal_changed_before(v, d, i + 1));
                } else if cal_changed_before(v, d, i + 1) {
                    let j = choose|j: int| 0 <= j < i + 1 && #[trigger] cal_changes(v[j], d);
                    assert(j < i);
                }
                if hit {
                    assert(target_before(v, lv, i + 1));
                } else if target_before(v, lv, i + 1) {
                    let j = choose|j: int| 0 <= j < i + 1 && #[trigger] is_target(v[j], lv);
                    assert(j < i);
                }
                if hit && !changed {
                    assert(combined_bumped_before(v, d, lv, i + 1));
                } else if combined_bumped_before(v, d, lv, i + 1) {
                    let j = choose|j: int|
                        0 <= j < i + 1 && #[trigger] is_target(v[j], lv) && !cal_changed_before(
                            v,
                            d,
                            j,
                        );
                    assert(j < i);
                }
                if over {
                    assert(is_target(v[i as int], lv));
                } else if exists|j: int|
                    0 <= j < i + 1 && #[trigger] is_target(v[j], lv) && !cal_changed_before(v, d, j)
                        && !combined_bumped_before(v, d, lv, j) && v[j]->value >= u32::MAX {
                    let j = choose|j: int|
                        0 <= j < i + 1 && #[trigger] is_target(v[j], lv) && !cal_changed_before(
                            v,
                            d,
                            j,
                        ) && !combined_bumped_before(v, d, lv, j) && v[j]->value >= u32::MAX;
                    assert(j < i);
                }
            }
            changed = changed || moved;
            bumped = bumped || (hit && !changed);
            found = found || hit;
            overflow = overflow || over;
            i = i + 1;
        }
        assert(!year_negative(v, d));
        if !found {
            return Err(VersionBumpError::SemanticSpecifierNotInFormat { spec: level });
        }
        if overflow {
            return Err(VersionBumpError::ValueOverflow);
        }
        assert(combined(v, d, lv).subrange(0, v.len() as int) =~= combined(v, d, lv));
        let r = Version { tokens: toks, scheme: PhantomData };
        proof {
            assert(shapes(r@) =~= shapes(v));
            if values_fit(v) {
                assert forall|k: int| 0 <= k < r@.len() && #[trigger] r@[k] is Value implies 0
                    <= r@[k]->value <= u32::MAX by {
                    assert(r@[k] == combined(v, d, lv)[k]);
                    assert(r@[k] == toks@[k]@);
                }
            }
        }
        Ok(r)
    }

    /// Moves every calendar value to the given date, resolving it first, and increments
    /// `semantic_specifier` only while no calendar value has changed yet.
    pub fn update_or_increment(&self, date: &Date, semantic_specifier: &CalSemSpecifier) -> (r:
        Result<Self, VersionBumpError>)
        ensures
            match *date {
                Date::Explicit { year, month, day } => !is_valid_ymd(
                    year as int,
                    month as int,
                    day as int,
                ) ==> r is Err && r->Err_0 == VersionBumpError::InvalidDateArguments {
                    year,
                    month,
                    day,
                },
                _ => true,
            },
            !date_rejected(*date) ==> exists|d: CalendarDate|
                #[trigger] resolves_to(*date, d) && outcome_is(
                    r,
                    update_or_increment_result(self@, d, semantic_specifier.as_level()),
                ),
            self.wf() && r is Ok ==> r->Ok_0.wf(),
    {
        let d = date.get_date()?;
        let r = self.update_or_increment_to(&d, semantic_specifier);
        assert(resolves_to(*date, d));
        r
    }
}

} // verus!
