//! The catalogue of specifiers: the placeholders a format may name, how their values are
//! written, and how the semantic ones rank.
use crate::decimal::{digits_of, padded_digits_of, push_digits};
use vstd::prelude::*;

verus! {

/// A semantic level, ranked `Major` over `Minor` over `Patch`.
#[derive(Debug, Clone, Copy, PartialEq, Eq, Structural)]
pub enum SemanticLevel {
    Major,
    Minor,
    Patch,
}

impl SemanticLevel {
    pub open spec fn rank(self) -> int {
        match self {
            SemanticLevel::Major => 2,
            SemanticLevel::Minor => 1,
            SemanticLevel::Patch => 0,
        }
    }

    pub fn rank_exec(&self) -> (r: u8)
        ensures
            r as int == self.rank(),
    {
        match self {
            SemanticLevel::Major => 2,
            SemanticLevel::Minor => 1,
            SemanticLevel::Patch => 0,
        }
    }
}

/// One placeholder of the catalogue. Two specifiers are the same exactly when they are the
/// same variant, however they were obtained.
#[derive(Debug, Clone, Copy, PartialEq, Eq, Structural)]
pub enum Specifier {
    /// `[MAJOR]`
    Major,
    /// `[MINOR]`
    Minor,
    /// `[PATCH]`
    Patch,
    /// `[YYYY]`: the full year.
    FullYear,
    /// `[YY]`: the year modulo 100, unpadded.
    ShortYear,
    /// `[0Y]`: the year modulo 100, two digits.
    ZeroPaddedShortYear,
    /// `[MM]`
    Month,
    /// `[0M]`
    ZeroPaddedMonth,
    /// `[WW]`: the ISO week.
    Week,
    /// `[0W]`
    ZeroPaddedWeek,
    /// `[DD]`
    Day,
    /// `[0D]`
    ZeroPaddedDay,
}

/// The field of a date that a calendar specifier stands for.
#[derive(Debug, Clone, Copy, PartialEq, Eq, Structural)]
pub enum CalendarUnit {
    Year,
    Month,
    Week,
    Day,
}

impl Specifier {
    /// The text between the brackets that names this specifier in a format.
    pub open spec fn name(self) -> Seq<char> {
        match self {
            Specifier::Major => seq!['M', 'A', 'J', 'O', 'R'],
            Specifier::Minor => seq!['M', 'I', 'N', 'O', 'R'],
            Specifier::Patch => seq!['P', 'A', 'T', 'C', 'H'],
            Specifier::FullYear => seq!['Y', 'Y', 'Y', 'Y'],
            Specifier::ShortYear => seq!['Y', 'Y'],
            Specifier::ZeroPaddedShortYear => seq!['0', 'Y'],
            Specifier::Month => seq!['M', 'M'],
            Specifier::ZeroPaddedMonth => seq!['0', 'M'],
            Specifier::Week => seq!['W', 'W'],
            Specifier::ZeroPaddedWeek => seq!['0', 'W'],
            Specifier::Day => seq!['D', 'D'],
            Specifier::ZeroPaddedDay => seq!['0', 'D'],
        }
    }

    pub open spec fn level(self) -> Option<SemanticLevel> {
        match self {
            Specifier::Major => Some(SemanticLevel::Major),
            Specifier::Minor => Some(SemanticLevel::Minor),
            Specifier::Patch => Some(SemanticLevel::Patch),
            _ => None,
        }
    }

    pub open spec fn unit(self) -> Option<CalendarUnit> {
        match self {
            Specifier::FullYear | Specifier::ShortYear | Specifier::ZeroPaddedShortYear => Some(
                CalendarUnit::Year,
            ),
            Specifier::Month | Specifier::ZeroPaddedMonth => Some(CalendarUnit::Month),
            Specifier::Week | Specifier::ZeroPaddedWeek => Some(CalendarUnit::Week),
            Specifier::Day | Specifier::ZeroPaddedDay => Some(CalendarUnit::Day),
            _ => None,
        }
    }

    pub open spec fn is_zero_padded(self) -> bool {
        match self {
            Specifier::ZeroPaddedShortYear | Specifier::ZeroPaddedMonth
            | Specifier::ZeroPaddedWeek | Specifier::ZeroPaddedDay => true,
            _ => false,
        }
    }

    /// How a value of this specifier is written.
    pub open spec fn render(self, value: nat) -> Seq<char> {
        if self.is_zero_padded() {
            padded_digits_of(value)
        } else {
            digits_of(value)
        }
    }

    /// The value this calendar specifier takes on a date, or `None` where it would be
    /// negative (a full year before 0, a short year before 2000).
    pub open spec fn date_value(self, year: int, month: int, week: int, day: int) -> Option<int> {
        match self.unit() {
            Some(CalendarUnit::Year) => if self == Specifier::FullYear {
                if year < 0 {
                    None
                } else {
                    Some(year)
                }
            } else {
                if year < 2000 {
                    None
                } else {
                    Some(year % 100)
                }
            },
            Some(CalendarUnit::Month) => Some(month),
            Some(CalendarUnit::Week) => Some(week),
            Some(CalendarUnit::Day) => Some(day),
            None => None,
        }
    }

    pub fn level_exec(&self) -> (r: Option<SemanticLevel>)
        ensures
            r == self.level(),
    {
        match self {
            Specifier::Major => Some(SemanticLevel::Major),
            Specifier::Minor => Some(SemanticLevel::Minor),
            Specifier::Patch => Some(SemanticLevel::Patch),
            _ => None,
        }
    }

    pub fn unit_exec(&self) -> (r: Option<CalendarUnit>)
        ensures
            r == self.unit(),
    {
        match self {
            Specifier::FullYear | Specifier::ShortYear | Specifier::ZeroPaddedShortYear => Some(
                CalendarUnit::Year,
            ),
            Specifier::Month | Specifier::ZeroPaddedMonth => Some(CalendarUnit::Month),
            Specifier::Week | Specifier::ZeroPaddedWeek => Some(CalendarUnit::Week),
            Specifier::Day | Specifier::ZeroPaddedDay => Some(CalendarUnit::Day),
            _ => None,
        }
    }

    pub fn name_chars(&self) -> (r: Vec<char>)
        ensures
            r@ == self.name(),
    {
        let r = match self {
            Specifier::Major => vec!['M', 'A', 'J', 'O', 'R'],
            Specifier::Minor => vec!['M', 'I', 'N', 'O', 'R'],
            Specifier::Patch => vec!['P', 'A', 'T', 'C', 'H'],
            Specifier::FullYear => vec!['Y', 'Y', 'Y', 'Y'],
            Specifier::ShortYear => vec!['Y', 'Y'],
            Specifier::ZeroPaddedShortYear => vec!['0', 'Y'],
            Specifier::Month => vec!['M', 'M'],
            Specifier::ZeroPaddedMonth => vec!['0', 'M'],
            Specifier::Week => vec!['W', 'W'],
            Specifier::ZeroPaddedWeek => vec!['0', 'W'],
            Specifier::Day => vec!['D', 'D'],
            Specifier::ZeroPaddedDay => vec!['0', 'D'],
        };
        assert(r@ =~= self.name());
        r
    }

    /// Appends the written form of `value` to `out`.
    pub fn render_into(&self, value: u32, out: &mut Vec<char>)
        ensures
            final(out)@ == old(out)@ + self.render(value as nat),
    {
        let padded = match self {
            Specifier::ZeroPaddedShortYear | Specifier::ZeroPaddedMonth
            | Specifier::ZeroPaddedWeek | Specifier::ZeroPaddedDay => true,
            _ => false,
        };
        if padded && value < 10 {
            out.push('0');
        }
        push_digits(value, out);
        proof {
            if padded && value < 10 {
                assert(final(out)@ =~= old(out)@ + self.render(value as nat));
            }
        }
    }

    /// The value of this calendar specifier on a date, as `date_value` gives it.
    pub fn date_value_exec(&self, year: i32, month: u32, week: u32, day: u32) -> (r: Option<u32>)
        requires
            self.unit() is Some,
        ensures
            r is Some <==> self.date_value(year as int, month as int, week as int, day as int) is Some,
            r is Some ==> r->0 as int == self.date_value(
                year as int,
                month as int,
                week as int,
                day as int,
            )->0,
    {
        match self {
            Specifier::FullYear => if year < 0 {
                None
            } else {
                Some(year as u32)
            },
            Specifier::ShortYear | Specifier::ZeroPaddedShortYear => if year < 2000 {
                None
            } else {
                Some((year % 100) as u32)
            },
            Specifier::Month | Specifier::ZeroPaddedMonth => Some(month),
            Specifier::Week | Specifier::ZeroPaddedWeek => Some(week),
            _ => Some(day),
        }
    }
}

/// The semantic level that a calendar-and-semantic version may be incremented by.
#[derive(Debug, Clone, Copy, PartialEq, Eq, Structural)]
pub enum CalSemSpecifier {
    Minor,
    Patch,
}

impl CalSemSpecifier {
    pub open spec fn as_level(self) -> SemanticLevel {
        match self {
            CalSemSpecifier::Minor => SemanticLevel::Minor,
            CalSemSpecifier::Patch => SemanticLevel::Patch,
        }
    }

    /// The semantic level this names.
    pub fn spec(&self) -> (r: SemanticLevel)
        ensures
            r == self.as_level(),
    {
        match self {
            CalSemSpecifier::Minor => SemanticLevel::Minor,
            CalSemSpecifier::Patch => SemanticLevel::Patch,
        }
    }
}

} // verus!
