//! Formats: compiling a format string into specifier and literal tokens, and checking them
//! against a scheme.
use crate::error::{FormatErrorKind, VersionBumpError};
use crate::specifier::{CalendarUnit, SemanticLevel, Specifier};
use crate::text::{chars_of, push_all, range_eq, string_of};
use core::marker::PhantomData;
use vstd::prelude::*;

verus! {

/// The three schemes a format or version can belong to.
#[derive(Debug, Clone, Copy, PartialEq, Eq, Structural)]
pub enum SchemeKind {
    Semantic,
    Calendar,
    CalendarSemantic,
}

/// A marker type naming a scheme; it decides which specifiers a format may hold and which
/// operations a version offers.
pub trait Scheme: Sized {
    spec fn kind() -> SchemeKind;

    fn kind_exec() -> (r: SchemeKind)
        ensures
            r == Self::kind(),
    ;
}

/// Semantic specifiers only: `MAJOR`, `MINOR`, `PATCH`, each at most once.
#[derive(Debug, Clone, Copy)]
pub struct Sem;

/// Calendar specifiers only, at most one per calendar unit.
#[derive(Debug, Clone, Copy)]
pub struct Cal;

/// Calendar specifiers, at most one per unit, and at most one of `MINOR` and `PATCH`.
#[derive(Debug, Clone, Copy)]
pub struct CalSem;

impl Scheme for Sem {
    open spec fn kind() -> SchemeKind {
        SchemeKind::Semantic
    }

    fn kind_exec() -> (r: SchemeKind) {
        SchemeKind::Semantic
    }
}

impl Scheme for Cal {
    open spec fn kind() -> SchemeKind {
        SchemeKind::Calendar
    }

    fn kind_exec() -> (r: SchemeKind) {
        SchemeKind::Calendar
    }
}

impl Scheme for CalSem {
    open spec fn kind() -> SchemeKind {
        SchemeKind::CalendarSemantic
    }

    fn kind_exec() -> (r: SchemeKind) {
        SchemeKind::CalendarSemantic
    }
}

/// The model of a format token.
pub enum FTok {
    Spec(Specifier),
    Lit(Seq<char>),
}

#[derive(Debug, Clone)]
pub enum FormatToken {
    Specifier(Specifier),
    Literal(Vec<char>),
}

impl View for FormatToken {
    type V = FTok;

    open spec fn view(&self) -> FTok {
        match self {
            FormatToken::Specifier(s) => FTok::Spec(*s),
            FormatToken::Literal(t) => FTok::Lit(t@),
        }
    }
}

pub open spec fn ftoks(v: Seq<FormatToken>) -> Seq<FTok> {
    v.map_values(|t: FormatToken| t@)
}

/// The specifier whose name is `n`, if any.
pub open spec fn specifier_named(n: Seq<char>) -> Option<Specifier> {
    if n == Specifier::Major.name() {
        Some(Specifier::Major)
    } else if n == Specifier::Minor.name() {
        Some(Specifier::Minor)
    } else if n == Specifier::Patch.name() {
        Some(Specifier::Patch)
    } else if n == Specifier::FullYear.name() {
        Some(Specifier::FullYear)
    } else if n == Specifier::ShortYear.name() {
        Some(Specifier::ShortYear)
    } else if n == Specifier::ZeroPaddedShortYear.name() {
        Some(Specifier::ZeroPaddedShortYear)
    } else if n == Specifier::Month.name() {
        Some(Specifier::Month)
    } else if n == Specifier::ZeroPaddedMonth.name() {
        Some(Specifier::ZeroPaddedMonth)
    } else if n == Specifier::Week.name() {
        Some(Specifier::Week)
    } else if n == Specifier::ZeroPaddedWeek.name() {
        Some(Specifier::ZeroPaddedWeek)
    } else if n == Specifier::Day.name() {
        Some(Specifier::Day)
    } else if n == Specifier::ZeroPaddedDay.name() {
        Some(Specifier::ZeroPaddedDay)
    } else {
        None
    }
}

/// The position of the first `]` in `s` at or after `i`, or `s.len()` if there is none.
pub open spec fn close_of(s: Seq<char>, i: int) -> int
    decreases s.len() - i,
{
    if i >= s.len() {
        s.len() as int
    } else if s[i] == ']' {
        i
    } else {
        close_of(s, i + 1)
    }
}

/// A pending literal run as tokens: none when it is empty.
pub open spec fn flush(lit: Seq<char>) -> Seq<FTok> {
    if lit.len() == 0 {
        seq![]
    } else {
        seq![FTok::Lit(lit)]
    }
}

pub open spec fn prepend(p: Seq<FTok>, r: Result<Seq<FTok>, FormatErrorKind>) -> Result<
    Seq<FTok>,
    FormatErrorKind,
> {
    match r {
        Ok(t) => Ok(p + t),
        Err(e) => Err(e),
    }
}

/// The tokens of `s` from position `i` on, with `lit` the literal run read so far: `[NAME]`
/// is a specifier, `\[` a literal bracket, anything else literal text; adjacent literal text
/// forms one token.
pub open spec fn tokenize_from(s: Seq<char>, i: int, lit: Seq<char>) -> Result<
    Seq<FTok>,
    FormatErrorKind,
>
    decreases s.len() - i,
{
    if i < 0 || i >= s.len() {
        Ok(flush(lit))
    } else if s[i] == '\\' && i + 1 < s.len() && s[i + 1] == '[' {
        tokenize_from(s, i + 2, lit.push('['))
    } else if s[i] == '[' {
        let j = close_of(s, i + 1);
        if j >= s.len() || j <= i {
            Err(FormatErrorKind::UnterminatedBracket)
        } else {
            match specifier_named(s.subrange(i + 1, j)) {
                None => Err(FormatErrorKind::UnknownSpecifier),
                Some(sp) => prepend(flush(lit).push(FTok::Spec(sp)), tokenize_from(s, j + 1, seq![])),
            }
        }
    } else {
        tokenize_from(s, i + 1, lit.push(s[i]))
    }
}

pub open spec fn tokenize(s: Seq<char>) -> Result<Seq<FTok>, FormatErrorKind> {
    tokenize_from(s, 0, seq![])
}

/// Whether a scheme admits a specifier at all.
pub open spec fn admits(kind: SchemeKind, sp: Specifier) -> bool {
    match kind {
        SchemeKind::Semantic => sp.level() is Some,
        SchemeKind::Calendar => sp.unit() is Some,
        SchemeKind::CalendarSemantic => sp.unit() is Some || sp == Specifier::Minor || sp
            == Specifier::Patch,
    }
}

/// The slot a specifier fills in a format of the scheme; no two specifiers may share one.
pub open spec fn slot(kind: SchemeKind, sp: Specifier) -> int {
    match sp.level() {
        Some(l) => if kind == SchemeKind::CalendarSemantic {
            7
        } else {
            l.rank()
        },
        None => match sp.unit() {
            Some(CalendarUnit::Year) => 3,
            Some(CalendarUnit::Month) => 4,
            Some(CalendarUnit::Week) => 5,
            _ => 6,
        },
    }
}

/// Whether some specifier among the first `n` tokens takes `slot`.
pub open spec fn slot_taken(kind: SchemeKind, t: Seq<FTok>, n: int, k: int) -> bool {
    exists|j: int|
        0 <= j < n && #[trigger] t[j] is Spec && admits(kind, t[j]->Spec_0) && slot(
            kind,
            t[j]->Spec_0,
        ) == k
}

/// The first rule that the tokens break for the scheme, scanning left to right.
pub open spec fn first_violation(kind: SchemeKind, t: Seq<FTok>) -> Option<FormatErrorKind>
    decreases t.len(),
{
    if t.len() == 0 {
        None
    } else {
        match first_violation(kind, t.drop_last()) {
            Some(e) => Some(e),
            None => match t.last() {
                FTok::Lit(_) => None,
                FTok::Spec(sp) => if !admits(kind, sp) {
                    Some(FormatErrorKind::SpecifierNotInScheme)
                } else if slot_taken(kind, t, t.len() - 1, slot(kind, sp)) {
                    Some(FormatErrorKind::RepeatedUnit)
                } else {
                    None
                },
            },
        }
    }
}

/// What compiling `s` for the scheme gives: its tokens, or why it is rejected.
pub open spec fn compile(kind: SchemeKind, s: Seq<char>) -> Result<Seq<FTok>, FormatErrorKind> {
    match tokenize(s) {
        Err(e) => Err(e),
        Ok(t) => match first_violation(kind, t) {
            Some(e) => Err(e),
            None => Ok(t),
        },
    }
}

/// Whether the tokens obey the scheme's rules.
pub open spec fn valid_format(kind: SchemeKind, t: Seq<FTok>) -> bool {
    first_violation(kind, t) is None
}

/// Once a prefix breaks a rule, every longer prefix reports that same rule.
pub proof fn lemma_violation_extends(kind: SchemeKind, t: Seq<FTok>, n: int, m: int)
    requires
        0 <= n <= m <= t.len(),
        first_violation(kind, t.subrange(0, n)) is Some,
    ensures
        first_violation(kind, t.subrange(0, m)) == first_violation(kind, t.subrange(0, n)),
    decreases m - n,
{
    if m > n {
        lemma_violation_extends(kind, t, n, m - 1);
        assert(t.subrange(0, m).drop_last() =~= t.subrange(0, m - 1));
    }
}

/// A literal as written in a format string: each `[` escaped.
pub open spec fn escaped(l: Seq<char>) -> Seq<char>
    decreases l.len(),
{
    if l.len() == 0 {
        seq![]
    } else if l.last() == '[' {
        escaped(l.drop_last()) + seq!['\\', '[']
    } else {
        escaped(l.drop_last()).push(l.last())
    }
}

pub open spec fn ftok_text(t: FTok) -> Seq<char> {
    match t {
        FTok::Spec(sp) => seq!['['] + sp.name() + seq![']'],
        FTok::Lit(l) => escaped(l),
    }
}

/// The format string that the tokens are written as.
pub open spec fn format_text(t: Seq<FTok>) -> Seq<char>
    decreases t.len(),
{
    if t.len() == 0 {
        seq![]
    } else {
        format_text(t.drop_last()) + ftok_text(t.last())
    }
}

/// A compiled format of scheme `S`: an immutable sequence of specifier and literal tokens.
#[derive(Debug)]
pub struct Format<S: Scheme> {
    pub(crate) tokens: Vec<FormatToken>,
    pub(crate) scheme: PhantomData<S>,
}

impl<S: Scheme> View for Format<S> {
    type V = Seq<FTok>;

    open(crate) spec fn view(&self) -> Seq<FTok> {
        ftoks(self.tokens@)
    }
}

fn specifier_named_exec(s: &Vec<char>, a: usize, b: usize) -> (r: Option<Specifier>)
    requires
        a <= b <= s@.len(),
    ensures
        r == specifier_named(s@.subrange(a as int, b as int)),
{
    if range_eq(s, a, b, &Specifier::Major.name_chars()) {
        Some(Specifier::Major)
    } else if range_eq(s, a, b, &Specifier::Minor.name_chars()) {
        Some(Specifier::Minor)
    } else if range_eq(s, a, b, &Specifier::Patch.name_chars()) {
        Some(Specifier::Patch)
    } else if range_eq(s, a, b, &Specifier::FullYear.name_chars()) {
        Some(Specifier::FullYear)
    } else if range_eq(s, a, b, &Specifier::ShortYear.name_chars()) {
        Some(Specifier::ShortYear)
    } else if range_eq(s, a, b, &Specifier::ZeroPaddedShortYear.name_chars()) {
        Some(Specifier::ZeroPaddedShortYear)
    } else if range_eq(s, a, b, &Specifier::Month.name_chars()) {
        Some(Specifier::Month)
    } else if range_eq(s, a, b, &Specifier::ZeroPaddedMonth.name_chars()) {
        Some(Specifier::ZeroPaddedMonth)
    } else if range_eq(s, a, b, &Specifier::Week.name_chars()) {
        Some(Specifier::Week)
    } else if range_eq(s, a, b, &Specifier::ZeroPaddedWeek.name_chars()) {
        Some(Specifier::ZeroPaddedWeek)
    } else if range_eq(s, a, b, &Specifier::Day.name_chars()) {
        Some(Specifier::Day)
    } else if range_eq(s, a, b, &Specifier::ZeroPaddedDay.name_chars()) {
        Some(Specifier::ZeroPaddedDay)
    } else {
        None
    }
}

fn admits_exec(kind: SchemeKind, sp: Specifier) -> (r: bool)
    ensures
        r == admits(kind, sp),
{
    match kind {
        SchemeKind::Semantic => sp.level_exec().is_some(),
        SchemeKind::Calendar => sp.unit_exec().is_some(),
        SchemeKind::CalendarSemantic => sp.unit_exec().is_some() || sp == Specifier::Minor || sp
            == Specifier::Patch,
    }
}

fn slot_exec(kind: SchemeKind, sp: Specifier) -> (r: usize)
    ensures
        r as int == slot(kind, sp),
        r < 8,
{
    match sp.level_exec() {
        Some(l) => if kind == SchemeKind::CalendarSemantic {
            7
        } else {
            l.rank_exec() as usize
        },
        None => match sp.unit_exec() {
            Some(CalendarUnit::Year) => 3,
            Some(CalendarUnit::Month) => 4,
            Some(CalendarUnit::Week) => 5,
            _ => 6,
        },
    }
}

fn tokenize_exec(s: &Vec<char>) -> (r: Result<Vec<FormatToken>, FormatErrorKind>)
    ensures
        match tokenize(s@) {
            Ok(t) => r is Ok && ftoks(r->Ok_0@) == t,
            Err(e) => r is Err && r->Err_0 == e,
        },
{
    let mut toks: Vec<FormatToken> = Vec::new();
    let mut lit: Vec<char> = Vec::new();
    let mut i: usize = 0;
    assert(ftoks(toks@) =~= seq![]);
    assert(prepend(seq![], tokenize_from(s@, 0, seq![])) == tokenize_from(s@, 0, seq![])) by {
        match tokenize_from(s@, 0, seq![]) {
            Ok(t) => assert(seq![] + t =~= t),
            Err(_) => {},
        }
    }
    while i < s.len()
        invariant
            i <= s@.len(),
            tokenize(s@) == prepend(ftoks(toks@), tokenize_from(s@, i as int, lit@)),
        decreases s@.len() - i,
    {
        let ghost p = ftoks(toks@);
        if s[i] == '\\' && i + 1 < s.len() && s[i + 1] == '[' {
            lit.push('[');
            i = i + 2;
        } else if s[i] == '[' {
            let mut j: usize = i + 1;
            while j < s.len() && s[j] != ']'
                invariant
                    i + 1 <= j <= s@.len(),
                    close_of(s@, i + 1) == close_of(s@, j as int),
                decreases s@.len() - j,
            {
                j = j + 1;
            }
            if j >= s.len() {
                return Err(FormatErrorKind::UnterminatedBracket);
            }
            match specifier_named_exec(s, i + 1, j) {
                None => {
                    return Err(FormatErrorKind::UnknownSpecifier);
                },
                Some(sp) => {
                    let ghost fl = flush(lit@);
                    if lit.len() > 0 {
                        toks.push(FormatToken::Literal(lit));
                        lit = Vec::new();
                    }
                    assert(ftoks(toks@) =~= p + fl);
                    toks.push(FormatToken::Specifier(sp));
                    assert(ftoks(toks@) =~= p + fl.push(FTok::Spec(sp)));
                    i = j + 1;
                    proof {
                        assert(lit@ =~= seq![]);
                        match tokenize_from(s@, i as int, lit@) {
                            Ok(t) => assert(p + (fl.push(FTok::Spec(sp)) + t) =~= ftoks(toks@) + t),
                            Err(_) => {},
                        }
                    }
                },
            }
        } else {
            lit.push(s[i]);
            i = i + 1;
        }
    }
    let ghost p = ftoks(toks@);
    let ghost fl = flush(lit@);
    if lit.len() > 0 {
        toks.push(FormatToken::Literal(lit));
    }
    assert(ftoks(toks@) =~= p + fl);
    Ok(toks)
}

fn first_violation_exec(kind: SchemeKind, toks: &Vec<FormatToken>) -> (r: Option<FormatErrorKind>)
    ensures
        r == first_violation(kind, ftoks(toks@)),
{
    let ghost t = ftoks(toks@);
    let mut seen: Vec<bool> = vec![false, false, false, false, false, false, false, false];
    let mut i: usize = 0;
    assert(t.subrange(0, 0).len() == 0);
    while i < toks.len()
        invariant
            t == ftoks(toks@),
            i <= toks@.len(),
            seen@.len() == 8,
            first_violation(kind, t.subrange(0, i as int)) is None,
            forall|k: int| 0 <= k < 8 ==> seen@[k] == slot_taken(kind, t, i as int, k),
        decreases toks@.len() - i,
    {
        let ghost sub = t.subrange(0, i + 1);
        assert(sub.drop_last() =~= t.subrange(0, i as int));
        assert(sub.last() == toks@[i as int]@);
        match &toks[i] {
            FormatToken::Literal(_) => {},
            FormatToken::Specifier(sp) => {
                if !admits_exec(kind, *sp) {
                    proof {
                        lemma_violation_extends(kind, t, i + 1, t.len() as int);
                        assert(t.subrange(0, t.len() as int) =~= t);
                    }
                    return Some(FormatErrorKind::SpecifierNotInScheme);
                }
                let k = slot_exec(kind, *sp);
                assert(slot_taken(kind, sub, i as int, k as int) == slot_taken(kind, t, i as int, k as int)) by {
                    if slot_taken(kind, t, i as int, k as int) {
                        let j = choose|j: int| 0 <= j < i && #[trigger] t[j] is Spec && admits(kind, t[j]->Spec_0) && slot(kind, t[j]->Spec_0) == k;
                        assert(sub[j] == t[j]);
                    }
                    if slot_taken(kind, sub, i as int, k as int) {
                        let j = choose|j: int| 0 <= j < i && #[trigger] sub[j] is Spec && admits(kind, sub[j]->Spec_0) && slot(kind, sub[j]->Spec_0) == k;
                        assert(sub[j] == t[j]);
                    }
                }
                if seen[k] {
                    proof {
                        lemma_violation_extends(kind, t, i + 1, t.len() as int);
                        assert(t.subrange(0, t.len() as int) =~= t);
                    }
                    return Some(FormatErrorKind::RepeatedUnit);
                }
                seen.set(k, true);
            },
        }
        proof {
            assert forall|k: int| 0 <= k < 8 implies seen@[k] == slot_taken(kind, t, i + 1, k) by {
                if slot_taken(kind, t, i + 1, k) && !slot_taken(kind, t, i as int, k) {
                    let j = choose|j: int| 0 <= j < i + 1 && #[trigger] t[j] is Spec && admits(kind, t[j]->Spec_0) && slot(kind, t[j]->Spec_0) == k;
                    assert(j == i);
                }
                if slot_taken(kind, t, i as int, k) {
                    let j = choose|j: int| 0 <= j < i && #[trigger] t[j] is Spec && admits(kind, t[j]->Spec_0) && slot(kind, t[j]->Spec_0) == k;
                    assert(0 <= j < i + 1);
                }
                if t[i as int] is Spec && admits(kind, t[i as int]->Spec_0) && slot(kind, t[i as int]->Spec_0) == k {
                    assert(slot_taken(kind, t, i + 1, k));
                }
            }
        }
        i = i + 1;
    }
    assert(t.subrange(0, t.len() as int) =~= t);
    None
}

fn push_escaped(out: &mut Vec<char>, l: &Vec<char>)
    ensures
        final(out)@ == old(out)@ + escaped(l@),
{
    let mut i: usize = 0;
    assert(escaped(l@.subrange(0, 0)) =~= seq![]);
    assert(out@ =~= old(out)@ + escaped(l@.subrange(0, 0)));
    while i < l.len()
        invariant
            i <= l@.len(),
            out@ == old(out)@ + escaped(l@.subrange(0, i as int)),
        decreases l@.len() - i,
    {
        let ghost sub = l@.subrange(0, i + 1);
        assert(sub.drop_last() =~= l@.subrange(0, i as int));
        if l[i] == '[' {
            out.push('\\');
            out.push('[');
        } else {
            out.push(l[i]);
        }
        i = i + 1;
        assert(out@ =~= old(out)@ + escaped(l@.subrange(0, i as int)));
    }
    assert(l@.subrange(0, l@.len() as int) =~= l@);
}

impl<S: Scheme> Format<S> {
    /// Tokens that obey the rules of scheme `S`.
    pub open spec fn wf(&self) -> bool {
        valid_format(S::kind(), self@)
    }

    /// Compiles a format string for scheme `S`.
    pub fn parse(format_str: &str) -> (r: Result<Format<S>, VersionBumpError>)
        ensures
            match compile(S::kind(), format_str@) {
                Ok(t) => r is Ok && r->Ok_0@ == t && r->Ok_0.wf(),
                Err(k) => match r {
                    Err(VersionBumpError::InvalidFormat { kind, format_string }) => kind == k
                        && format_string@ == format_str@,
                    _ => false,
                },
            },
    {
        let s = chars_of(format_str);
        let toks = match tokenize_exec(&s) {
            Ok(t) => t,
            Err(kind) => {
                return Err(
                    VersionBumpError::InvalidFormat { kind, format_string: format_str.to_owned() },
                );
            },
        };
        match first_violation_exec(S::kind_exec(), &toks) {
            Some(kind) => Err(
                VersionBumpError::InvalidFormat { kind, format_string: format_str.to_owned() },
            ),
            None => Ok(Format { tokens: toks, scheme: PhantomData }),
        }
    }

    /// The format string these tokens are written as, with literal brackets escaped.
    pub fn to_string(&self) -> (r: String)
        ensures
            r@ == format_text(self@),
    {
        let ghost t = self@;
        let mut out: Vec<char> = Vec::new();
        let mut i: usize = 0;
        assert(format_text(t.subrange(0, 0)) =~= seq![]);
        while i < self.tokens.len()
            invariant
                t == self@,
                i <= t.len(),
                out@ == format_text(t.subrange(0, i as int)),
            decreases t.len() - i,
        {
            let ghost sub = t.subrange(0, i + 1);
            assert(sub.drop_last() =~= t.subrange(0, i as int));
            assert(sub.last() == self.tokens@[i as int]@);
            match &self.tokens[i] {
                FormatToken::Specifier(sp) => {
                    out.push('[');
                    push_all(&mut out, &sp.name_chars());
                    out.push(']');
                },
                FormatToken::Literal(l) => {
                    push_escaped(&mut out, l);
                },
            }
            i = i + 1;
            assert(out@ =~= format_text(t.subrange(0, i as int)));
        }
        assert(t.subrange(0, t.len() as int) =~= t);
        string_of(&out)
    }
}

} // verus!
