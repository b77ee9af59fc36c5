//! A calendar date and a time of day, read from and written as
//! `YYYY-MM-DD HH:MM:SS`.

use std::cmp::Ordering;
use vstd::prelude::*;
use vstd::std_specs::cmp::PartialOrdSpecImpl;
use crate::decimal::{
    all_digits,
    is_digit,
    is_numeric,
    lemma_digit_count,
    lemma_digits_read_back,
    lemma_zero_padded_parses,
    numeric_value,
    parse_unsigned,
    parse_unsigned_slice,
    push_zero_padded,
    unsigned_digits,
    zero_padded,
};
use crate::text::{
    chars_of,
    is_whitespace,
    lemma_three_fields,
    lemma_two_words,
    pieces,
    split,
    split_slice,
    split_whitespace,
    split_whitespace_slice,
};

verus! {

/// A point in time, to the second. The fields are compared in the order in
/// which they are declared, so one value precedes another exactly when it is
/// the earlier point in time.
#[derive(Debug, Clone, Copy, PartialEq, Eq, Structural, Ord)]
pub struct DateTime {
    pub year: u16,
    pub month: u8,
    pub day: u8,
    pub hour: u8,
    pub minute: u8,
    pub second: u8,
}

impl DateTime {
    /// Whether every field lies in its range. The day is not held against the
    /// length of the month.
    pub open spec fn is_valid(self) -> bool {
        &&& 1970 <= self.year <= 9999
        &&& 1 <= self.month <= 12
        &&& 1 <= self.day <= 31
        &&& self.hour <= 23
        &&& self.minute <= 59
        &&& self.second <= 59
    }

    /// Whether `self` is strictly earlier than `other`: the order of the six
    /// fields read as a tuple, the year first.
    pub open spec fn precedes(self, other: DateTime) -> bool {
        ||| self.year < other.year
        ||| self.year == other.year && self.month < other.month
        ||| self.year == other.year && self.month == other.month && self.day < other.day
        ||| self.year == other.year && self.month == other.month && self.day == other.day
            && self.hour < other.hour
        ||| self.year == other.year && self.month == other.month && self.day == other.day
            && self.hour == other.hour && self.minute < other.minute
        ||| self.year == other.year && self.month == other.month && self.day == other.day
            && self.hour == other.hour && self.minute == other.minute && self.second
            < other.second
    }

    /// How `self` stands to `other` in time.
    pub open spec fn order(self, other: DateTime) -> Ordering {
        if self.precedes(other) {
            Ordering::Less
        } else if other.precedes(self) {
            Ordering::Greater
        } else {
            Ordering::Equal
        }
    }

    /// The value that six numbers make where each is in its range, and
    /// otherwise the complaint about the first that is not.
    pub open spec fn from_numbers(
        year: nat,
        month: nat,
        day: nat,
        hour: nat,
        minute: nat,
        second: nat,
    ) -> Result<DateTime, Seq<char>> {
        if !(1970 <= year <= 9999) {
            Err("Year out of range"@)
        } else if !(1 <= month <= 12) {
            Err("Month out of range"@)
        } else if !(1 <= day <= 31) {
            Err("Day out of range"@)
        } else if hour > 23 {
            Err("Hour out of range"@)
        } else if minute > 59 {
            Err("Minute out of range"@)
        } else if second > 59 {
            Err("Second out of range"@)
        } else {
            Ok(
                DateTime {
                    year: year as u16,
                    month: month as u8,
                    day: day as u8,
                    hour: hour as u8,
                    minute: minute as u8,
                    second: second as u8,
                },
            )
        }
    }

    /// The value itself where every field is in range, and otherwise the
    /// complaint about the first field that is not.
    pub open spec fn checked(self) -> Result<DateTime, Seq<char>> {
        DateTime::from_numbers(
            self.year as nat,
            self.month as nat,
            self.day as nat,
            self.hour as nat,
            self.minute as nat,
            self.second as nat,
        )
    }

    /// What six fields of text denote. Each must be a number, of whatever
    /// size; the first that is not is named in the complaint. Only when all
    /// six are numbers are their ranges checked, in the same order.
    pub open spec fn from_fields(
        year: Seq<char>,
        month: Seq<char>,
        day: Seq<char>,
        hour: Seq<char>,
        minute: Seq<char>,
        second: Seq<char>,
    ) -> Result<DateTime, Seq<char>> {
        if !is_numeric(year) {
            Err("Invalid year"@)
        } else if !is_numeric(month) {
            Err("Invalid month"@)
        } else if !is_numeric(day) {
            Err("Invalid day"@)
        } else if !is_numeric(hour) {
            Err("Invalid hour"@)
        } else if !is_numeric(minute) {
            Err("Invalid minute"@)
        } else if !is_numeric(second) {
            Err("Invalid second"@)
        } else {
            DateTime::from_numbers(
                numeric_value(year),
                numeric_value(month),
                numeric_value(day),
                numeric_value(hour),
                numeric_value(minute),
                numeric_value(second),
            )
        }
    }

    /// What a piece of text denotes as a date and time: two words, the first
    /// of three fields joined by `-` and the second of three joined by `:`.
    pub open spec fn parse(s: Seq<char>) -> Result<DateTime, Seq<char>> {
        let words = split_whitespace(s);
        if words.len() != 2 {
            Err("Invalid datetime format"@)
        } else {
            let date = split(words[0], '-');
            let time = split(words[1], ':');
            if date.len() != 3 || time.len() != 3 {
                Err("Invalid date or time format"@)
            } else {
                DateTime::from_fields(date[0], date[1], date[2], time[0], time[1], time[2])
            }
        }
    }

    /// The canonical text of the value: each field in decimal with leading
    /// zeros, the year to four digits and the others to two.
    pub open spec fn text(self) -> Seq<char> {
        zero_padded(self.year as nat, 4) + seq!['-'] + zero_padded(self.month as nat, 2)
            + seq!['-'] + zero_padded(self.day as nat, 2) + seq![' '] + zero_padded(
            self.hour as nat,
            2,
        ) + seq![':'] + zero_padded(self.minute as nat, 2) + seq![':'] + zero_padded(
            self.second as nat,
            2,
        )
    }

    /// Compares two values field by field, the year first.
    pub fn cmp(&self, other: &DateTime) -> (r: Ordering)
        ensures
            r == self.order(*other),
    {
        if self.year != other.year {
            if self.year < other.year { Ordering::Less } else { Ordering::Greater }
        } else if self.month != other.month {
            if self.month < other.month { Ordering::Less } else { Ordering::Greater }
        } else if self.day != other.day {
            if self.day < other.day { Ordering::Less } else { Ordering::Greater }
        } else if self.hour != other.hour {
            if self.hour < other.hour { Ordering::Less } else { Ordering::Greater }
        } else if self.minute != other.minute {
            if self.minute < other.minute { Ordering::Less } else { Ordering::Greater }
        } else if self.second != other.second {
            if self.second < other.second { Ordering::Less } else { Ordering::Greater }
        } else {
            Ordering::Equal
        }
    }

    /// Checks the ranges of the fields.
    pub fn check(self) -> (r: Result<DateTime, String>)
        ensures
            match r {
                Ok(t) => self.checked() == Ok::<DateTime, Seq<char>>(t) && t.is_valid(),
                Err(reason) => self.checked() == Err::<DateTime, Seq<char>>(reason@),
            },
    {
        if self.year < 1970 || self.year > 9999 {
            Err("Year out of range".to_string())
        } else if self.month < 1 || self.month > 12 {
            Err("Month out of range".to_string())
        } else if self.day < 1 || self.day > 31 {
            Err("Day out of range".to_string())
        } else if self.hour > 23 {
            Err("Hour out of range".to_string())
        } else if self.minute > 59 {
            Err("Minute out of range".to_string())
        } else if self.second > 59 {
            Err("Second out of range".to_string())
        } else {
            Ok(self)
        }
    }

    /// Reads a date and time from the characters `cs`.
    pub fn from_chars(cs: &[char]) -> (r: Result<DateTime, String>)
        ensures
            match r {
                Ok(t) => DateTime::parse(cs@) == Ok::<DateTime, Seq<char>>(t) && t.is_valid(),
                Err(reason) => DateTime::parse(cs@) == Err::<DateTime, Seq<char>>(reason@),
            },
    {
        let words = split_whitespace_slice(cs);
        if words.len() != 2 {
            return Err("Invalid datetime format".to_string());
        }
        assert(pieces(words@)[0] == words@[0]@ && pieces(words@)[1] == words@[1]@);
        let date = split_slice(words[0], '-');
        let time = split_slice(words[1], ':');
        if date.len() != 3 || time.len() != 3 {
            return Err("Invalid date or time format".to_string());
        }
        assert(pieces(date@)[0] == date@[0]@ && pieces(date@)[1] == date@[1]@ && pieces(date@)[2]
            == date@[2]@);
        assert(pieces(time@)[0] == time@[0]@ && pieces(time@)[1] == time@[1]@ && pieces(time@)[2]
            == time@[2]@);
        // A number beyond the range of its field is read as the cap, which
        // lies beyond the range too.
        let year = match parse_unsigned_slice(date[0], 10000) {
            Some(v) => v,
            None => { return Err("Invalid year".to_string()); },
        };
        let month = match parse_unsigned_slice(date[1], 0xFF) {
            Some(v) => v as u8,
            None => { return Err("Invalid month".to_string()); },
        };
        let day = match parse_unsigned_slice(date[2], 0xFF) {
            Some(v) => v as u8,
            None => { return Err("Invalid day".to_string()); },
        };
        let hour = match parse_unsigned_slice(time[0], 0xFF) {
            Some(v) => v as u8,
            None => { return Err("Invalid hour".to_string()); },
        };
        let minute = match parse_unsigned_slice(time[1], 0xFF) {
            Some(v) => v as u8,
            None => { return Err("Invalid minute".to_string()); },
        };
        let second = match parse_unsigned_slice(time[2], 0xFF) {
            Some(v) => v as u8,
            None => { return Err("Invalid second".to_string()); },
        };
        let read = DateTime { year, month, day, hour, minute, second };
        assert(read.checked() == DateTime::from_fields(
            date@[0]@,
            date@[1]@,
            date@[2]@,
            time@[0]@,
            time@[1]@,
            time@[2]@,
        ));
        read.check()
    }

    /// Reads a date and time from text.
    pub fn from_str(s: &str) -> (r: Result<DateTime, String>)
        ensures
            match r {
                Ok(t) => DateTime::parse(s@) == Ok::<DateTime, Seq<char>>(t) && t.is_valid(),
                Err(reason) => DateTime::parse(s@) == Err::<DateTime, Seq<char>>(reason@),
            },
    {
        let cs = chars_of(s);
        DateTime::from_chars(cs.as_slice())
    }

    /// Writes the value in its canonical form.
    pub fn to_string(&self) -> (r: String)
        ensures
            r@ == self.text(),
    {
        let mut out = String::new();
        push_zero_padded(&mut out, self.year, 4);
        out.push('-');
        push_zero_padded(&mut out, self.month as u16, 2);
        out.push('-');
        push_zero_padded(&mut out, self.day as u16, 2);
        out.push(' ');
        push_zero_padded(&mut out, self.hour as u16, 2);
        out.push(':');
        push_zero_padded(&mut out, self.minute as u16, 2);
        out.push(':');
        push_zero_padded(&mut out, self.second as u16, 2);
        out
    }
}

impl std::str::FromStr for DateTime {
    type Err = String;

    fn from_str(s: &str) -> (r: Result<DateTime, String>)
        ensures
            match r {
                Ok(t) => DateTime::parse(s@) == Ok::<DateTime, Seq<char>>(t) && t.is_valid(),
                Err(reason) => DateTime::parse(s@) == Err::<DateTime, Seq<char>>(reason@),
            },
    {
        DateTime::from_str(s)
    }
}

impl PartialOrdSpecImpl for DateTime {
    open spec fn obeys_partial_cmp_spec() -> bool {
        true
    }

    open spec fn partial_cmp_spec(&self, other: &DateTime) -> Option<Ordering> {
        Some(self.order(*other))
    }
}

impl PartialOrd for DateTime {
    fn partial_cmp(&self, other: &DateTime) -> (r: Option<Ordering>) {
        Some(self.cmp(other))
    }
}

/// A value that was read from text has every field in its range.
pub proof fn lemma_parsed_is_valid(s: Seq<char>)
    requires
        DateTime::parse(s) is Ok,
    ensures
        DateTime::parse(s)->Ok_0.is_valid(),
{
}

/// Whether `field` is the number `n` written with exactly `width` digits.
pub open spec fn is_field(field: Seq<char>, width: nat, n: nat) -> bool {
    &&& field.len() == width
    &&& all_digits(field)
    &&& parse_unsigned(field) == Some(n)
}

/// A number whose digits fit the width is written as a field of that width.
proof fn lemma_field(n: nat, width: nat)
    requires
        n < 10000,
        width == 4 || (width == 2 && n < 100),
    ensures
        is_field(zero_padded(n, width), width, n),
{
    lemma_digit_count(n);
    lemma_zero_padded_parses(n, width);
}

/// The six fields that the text of a valid value is made of.
proof fn lemma_fields_of_text(t: DateTime)
    requires
        t.is_valid(),
    ensures
        is_field(zero_padded(t.year as nat, 4), 4, t.year as nat),
        is_field(zero_padded(t.month as nat, 2), 2, t.month as nat),
        is_field(zero_padded(t.day as nat, 2), 2, t.day as nat),
        is_field(zero_padded(t.hour as nat, 2), 2, t.hour as nat),
        is_field(zero_padded(t.minute as nat, 2), 2, t.minute as nat),
        is_field(zero_padded(t.second as nat, 2), 2, t.second as nat),
{
    lemma_field(t.year as nat, 4);
    lemma_field(t.month as nat, 2);
    lemma_field(t.day as nat, 2);
    lemma_field(t.hour as nat, 2);
    lemma_field(t.minute as nat, 2);
    lemma_field(t.second as nat, 2);
}

/// A field of digits holds no whitespace and neither of the two separators.
proof fn lemma_digits_hold_no_separator(field: Seq<char>)
    requires
        all_digits(field),
    ensures
        forall|i: int| 0 <= i < field.len() ==> !is_whitespace(#[trigger] field[i]),
        forall|i: int| 0 <= i < field.len() ==> #[trigger] field[i] != '-',
        forall|i: int| 0 <= i < field.len() ==> #[trigger] field[i] != ':',
{
    assert forall|i: int| 0 <= i < field.len() implies !is_whitespace(#[trigger] field[i])
        && field[i] != '-' && field[i] != ':' by {
        assert(is_digit(field[i]));
    }
}

/// Three fields of digits joined by `sep`, one of the two separators, are a
/// word that splits into just these fields.
proof fn lemma_word_of_fields(x: Seq<char>, y: Seq<char>, z: Seq<char>, sep: char)
    requires
        all_digits(x),
        all_digits(y),
        all_digits(z),
        sep == '-' || sep == ':',
    ensures
        split(x + seq![sep] + y + seq![sep] + z, sep) == seq![x, y, z],
        forall|i: int|
            0 <= i < (x + seq![sep] + y + seq![sep] + z).len() ==> !is_whitespace(
                #[trigger] (x + seq![sep] + y + seq![sep] + z)[i],
            ),
{
    let word = x + seq![sep] + y + seq![sep] + z;
    lemma_digits_hold_no_separator(x);
    lemma_digits_hold_no_separator(y);
    lemma_digits_hold_no_separator(z);
    lemma_three_fields(x, y, z, sep);
    assert forall|i: int| 0 <= i < word.len() implies !is_whitespace(#[trigger] word[i]) by {
        if i < x.len() {
            assert(word[i] == x[i]);
        } else if i == x.len() {
            assert(word[i] == sep);
        } else if i < x.len() + 1 + y.len() {
            assert(word[i] == y[i - x.len() - 1]);
        } else if i == x.len() + 1 + y.len() {
            assert(word[i] == sep);
        } else {
            assert(word[i] == z[i - x.len() - y.len() - 2]);
        }
    }
}

/// What text made of a date word and a time word denotes, each word being
/// three fields of digits: what the six fields denote.
proof fn lemma_parse_of_fields(
    year: Seq<char>,
    month: Seq<char>,
    day: Seq<char>,
    hour: Seq<char>,
    minute: Seq<char>,
    second: Seq<char>,
)
    requires
        all_digits(year),
        all_digits(month),
        all_digits(day),
        all_digits(hour),
        all_digits(minute),
        all_digits(second),
    ensures
        DateTime::parse(
            year + seq!['-'] + month + seq!['-'] + day + seq![' '] + hour + seq![':'] + minute
                + seq![':'] + second,
        ) == DateTime::from_fields(year, month, day, hour, minute, second),
{
    let date = year + seq!['-'] + month + seq!['-'] + day;
    let time = hour + seq![':'] + minute + seq![':'] + second;
    let text = year + seq!['-'] + month + seq!['-'] + day + seq![' '] + hour + seq![':'] + minute
        + seq![':'] + second;
    assert(text =~= date + seq![' '] + time);
    lemma_word_of_fields(year, month, day, '-');
    lemma_word_of_fields(hour, minute, second, ':');
    lemma_two_words(date, time);
    let words = split_whitespace(text);
    assert(words.len() == 2 && words[0] == date && words[1] == time);
    let date_fields = split(date, '-');
    let time_fields = split(time, ':');
    assert(date_fields.len() == 3 && date_fields[0] == year && date_fields[1] == month
        && date_fields[2] == day);
    assert(time_fields.len() == 3 && time_fields[0] == hour && time_fields[1] == minute
        && time_fields[2] == second);
}

/// The canonical text of a valid value is 19 characters long and reads back
/// as the same value.
pub proof fn lemma_text_parses_back(t: DateTime)
    requires
        t.is_valid(),
    ensures
        t.text().len() == 19,
        DateTime::parse(t.text()) == Ok::<DateTime, Seq<char>>(t),
{
    lemma_fields_of_text(t);
    lemma_parse_of_fields(
        zero_padded(t.year as nat, 4),
        zero_padded(t.month as nat, 2),
        zero_padded(t.day as nat, 2),
        zero_padded(t.hour as nat, 2),
        zero_padded(t.minute as nat, 2),
        zero_padded(t.second as nat, 2),
    );
}

/// Whether `s` has the canonical shape: 19 characters, digits but for the two
/// `-`, the space and the two `:` at their places.
pub open spec fn is_canonical(s: Seq<char>) -> bool {
    &&& s.len() == 19
    &&& s[4] == '-'
    &&& s[7] == '-'
    &&& s[10] == ' '
    &&& s[13] == ':'
    &&& s[16] == ':'
    &&& forall|i: int|
        0 <= i < 19 && i != 4 && i != 7 && i != 10 && i != 13 && i != 16 ==> is_digit(
            #[trigger] s[i],
        )
}

/// The text of a valid value has the canonical shape.
pub proof fn lemma_text_is_canonical(t: DateTime)
    requires
        t.is_valid(),
    ensures
        is_canonical(t.text()),
{
    let year = zero_padded(t.year as nat, 4);
    let month = zero_padded(t.month as nat, 2);
    let day = zero_padded(t.day as nat, 2);
    let hour = zero_padded(t.hour as nat, 2);
    let minute = zero_padded(t.minute as nat, 2);
    let second = zero_padded(t.second as nat, 2);
    let s = t.text();
    lemma_fields_of_text(t);
    assert(s.len() == 19);
    assert forall|i: int|
        0 <= i < 19 && i != 4 && i != 7 && i != 10 && i != 13 && i != 16 implies is_digit(
        #[trigger] s[i],
    ) by {
        if i < 4 {
            assert(s[i] == year[i]);
        } else if i < 7 {
            assert(s[i] == month[i - 5]);
        } else if i < 10 {
            assert(s[i] == day[i - 8]);
        } else if i < 13 {
            assert(s[i] == hour[i - 11]);
        } else if i < 16 {
            assert(s[i] == minute[i - 14]);
        } else {
            assert(s[i] == second[i - 17]);
        }
    }
}

/// Each of the six stretches between the separators of a text of canonical
/// shape is a field of digits.
proof fn lemma_stretch_of_digits(s: Seq<char>, from: int, to: int)
    requires
        is_canonical(s),
        (from == 0 && to == 4) || (from == 5 && to == 7) || (from == 8 && to == 10) || (from == 11
            && to == 13) || (from == 14 && to == 16) || (from == 17 && to == 19),
    ensures
        all_digits(s.subrange(from, to)),
        is_numeric(s.subrange(from, to)),
        unsigned_digits(s.subrange(from, to)) == s.subrange(from, to),
{
    let field = s.subrange(from, to);
    assert forall|i: int| 0 <= i < field.len() implies is_digit(#[trigger] field[i]) by {
        assert(field[i] == s[from + i]);
    }
    assert(is_digit(field[0]));
}

/// Text of the canonical shape that denotes a value is the text of that
/// value: reading it and writing it gives it back unchanged.
pub proof fn lemma_canonical_text_is_kept(s: Seq<char>)
    requires
        is_canonical(s),
        DateTime::parse(s) is Ok,
    ensures
        DateTime::parse(s)->Ok_0.text() == s,
{
    let year = s.subrange(0, 4);
    let month = s.subrange(5, 7);
    let day = s.subrange(8, 10);
    let hour = s.subrange(11, 13);
    let minute = s.subrange(14, 16);
    let second = s.subrange(17, 19);
    lemma_stretch_of_digits(s, 0, 4);
    lemma_stretch_of_digits(s, 5, 7);
    lemma_stretch_of_digits(s, 8, 10);
    lemma_stretch_of_digits(s, 11, 13);
    lemma_stretch_of_digits(s, 14, 16);
    lemma_stretch_of_digits(s, 17, 19);
    assert(s =~= year + seq!['-'] + month + seq!['-'] + day + seq![' '] + hour + seq![':']
        + minute + seq![':'] + second);
    lemma_parse_of_fields(year, month, day, hour, minute, second);
    lemma_digits_read_back(year);
    lemma_digits_read_back(month);
    lemma_digits_read_back(day);
    lemma_digits_read_back(hour);
    lemma_digits_read_back(minute);
    lemma_digits_read_back(second);
    let t = DateTime::parse(s)->Ok_0;
    assert(t.year == numeric_value(year) && t.month == numeric_value(month) && t.day
        == numeric_value(day));
    assert(t.hour == numeric_value(hour) && t.minute == numeric_value(minute) && t.second
        == numeric_value(second));
    assert(t.text() =~= s);
}

/// Writing a value that was read from text gives its canonical form, however
/// the text was spaced or padded: text of the canonical shape that reads back
/// as the same value, so that reading and writing once more changes nothing.
pub proof fn lemma_display_is_canonical(s: Seq<char>)
    requires
        DateTime::parse(s) is Ok,
    ensures
        is_canonical(DateTime::parse(s)->Ok_0.text()),
        DateTime::parse(DateTime::parse(s)->Ok_0.text()) == DateTime::parse(s),
{
    lemma_parsed_is_valid(s);
    lemma_text_parses_back(DateTime::parse(s)->Ok_0);
    lemma_text_is_canonical(DateTime::parse(s)->Ok_0);
}

/// The order of timestamps is a strict total order: nothing precedes itself,
/// the order is transitive, and of two different values one precedes the
/// other.
pub proof fn lemma_order_is_total(a: DateTime, b: DateTime, c: DateTime)
    ensures
        !a.precedes(a),
        a.precedes(b) && b.precedes(c) ==> a.precedes(c),
        a.precedes(b) ==> !b.precedes(a),
        a != b ==> a.precedes(b) || b.precedes(a),
{
}

} // verus!
