use vstd::prelude::*;

verus! {

/// A calendar date.
#[derive(Debug, Clone, Copy, PartialEq, Eq, Structural)]
pub struct CalendarDay {
    pub year: i32,
    /// 1 to 12.
    pub month: u32,
    /// 1 to 31.
    pub day: u32,
}

/// A birthday falls on `today` when month and day agree, whatever the year.
pub open spec fn birthday_on(birthday: Option<CalendarDay>, today: CalendarDay) -> bool {
    birthday is Some && birthday->0.month == today.month && birthday->0.day == today.day
}

/// Whether `birthday` is today.
pub fn is_birthday(birthday: &Option<CalendarDay>, today: CalendarDay) -> (r: bool)
    ensures
        r == birthday_on(*birthday, today),
{
    match birthday {
        Some(b) => b.month == today.month && b.day == today.day,
        None => false,
    }
}

/// A player's name as shown: with a gift in front of it on their birthday.
pub fn modify_birthday(name: &str, birthday: &Option<CalendarDay>, today: CalendarDay) -> (r: String)
    ensures
        r@ == if birthday_on(*birthday, today) {
            "\u{1f381} "@ + name@
        } else {
            name@
        },
{
    if is_birthday(birthday, today) {
        let mut shown = String::from_str("\u{1f381} ");
        shown.append(name);
        shown
    } else {
        String::from_str(name)
    }
}

} // verus!
