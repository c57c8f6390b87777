//! The edition record as the site lists it, and its display label.

use vstd::prelude::*;

use crate::text::{hex_digit_char, push_hex_digit};

verus! {

/// A calendar date held as plain fields: the publish date of an edition.
#[derive(Clone, Copy, PartialEq, Eq, Structural, Debug)]
pub struct Date {
    pub year: u16,
    pub month: u8,
    pub day: u8,
}

impl Date {
    /// A displayable date: four-digit year, valid month, valid day.
    pub open spec fn wf(self) -> bool {
        self.year <= 9999 && 1 <= self.month <= 12 && 1 <= self.day <= 31
    }

    /// The ten-character zero-padded `year-month-day` spelling.
    pub fn to_string(&self) -> (s: String)
        requires
            self.wf(),
        ensures
            s@ == date_text(*self),
    {
        let mut s = String::new();
        push_hex_digit(&mut s, ((self.year / 1000) % 10) as u8);
        push_hex_digit(&mut s, ((self.year / 100) % 10) as u8);
        push_hex_digit(&mut s, ((self.year / 10) % 10) as u8);
        push_hex_digit(&mut s, (self.year % 10) as u8);
        proof {
            reveal_strlit("-");
        }
        s.append("-");
        push_hex_digit(&mut s, (self.month / 10) as u8);
        push_hex_digit(&mut s, (self.month % 10) as u8);
        s.append("-");
        push_hex_digit(&mut s, (self.day / 10) as u8);
        push_hex_digit(&mut s, (self.day % 10) as u8);
        proof {
            assert(s@ =~= date_text(*self));
        }
        s
    }
}

/// The zero-padded `year-month-day` spelling of a date.
pub open spec fn date_text(d: Date) -> Seq<char> {
    seq![
        hex_digit_char(d.year as int / 1000 % 10),
        hex_digit_char(d.year as int / 100 % 10),
        hex_digit_char(d.year as int / 10 % 10),
        hex_digit_char(d.year as int % 10),
        '-',
        hex_digit_char(d.month as int / 10),
        hex_digit_char(d.month as int % 10),
        '-',
        hex_digit_char(d.day as int / 10),
        hex_digit_char(d.day as int % 10),
    ]
}

/// One edition as the site stores it.
pub struct Model {
    pub id: crate::store::EditionId,
    pub date: Date,
    pub title: Option<String>,
    pub views: i32,
    pub old_views: i32,
    pub hidden: bool,
}

/// The label an edition is listed under: its date, and the title after a
/// separating dash when there is one.
pub open spec fn label_text(date: Date, title: Option<Seq<char>>) -> Seq<char> {
    match title {
        Some(t) => date_text(date) + " - "@ + t,
        None => date_text(date),
    }
}

impl Model {
    /// The label the edition is listed under.
    pub fn label(&self) -> (r: String)
        requires
            self.date.wf(),
        ensures
            self.title is Some ==> r@ == label_text(self.date, Some(self.title.unwrap()@)),
            self.title is None ==> r@ == label_text(self.date, None),
    {
        let mut s = self.date.to_string();
        match &self.title {
            Some(t) => {
                proof {
                    reveal_strlit(" - ");
                }
                s.append(" - ");
                s.append(t.as_str());
                proof {
                    assert(s@ =~= label_text(self.date, Some(t@)));
                }
            },
            None => {},
        }
        s
    }
}

} // verus!
