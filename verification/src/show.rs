//! Shows and their weekly air times.

use vstd::prelude::*;
use vstd::string::StrSliceExecFns;
use vstd::string::StringExecFns;

verus! {

/// When a show airs, as an offset into the week. Non-airing shows keep the
/// sentinel value -1 in every numeric field; it is never rendered.
#[derive(Clone, Copy, PartialEq, Eq, Structural, Debug)]
pub struct AirTime {
    pub is_airing: bool,
    pub est_week_day: i32,
    pub est_h: i32,
    pub est_m: i32,
}

impl AirTime {
    /// An airing time lies inside the week and the day; a non-airing one
    /// holds only sentinels.
    pub open spec fn wf(&self) -> bool {
        if self.is_airing {
            0 <= self.est_week_day <= 6 && 0 <= self.est_h <= 23 && 0 <= self.est_m <= 59
        } else {
            self.est_week_day == -1 && self.est_h == -1 && self.est_m == -1
        }
    }
}

/// A tracked show and the metadata scraped from its page.
pub struct Show {
    pub id: String,
    pub name: String,
    pub image_url: String,
    pub synopsis: String,
    pub air_time: AirTime,
}

/// The mathematical value of a `Show`.
pub ghost struct ShowV {
    pub id: Seq<char>,
    pub name: Seq<char>,
    pub image_url: Seq<char>,
    pub synopsis: Seq<char>,
    pub air_time: AirTime,
}

impl ShowV {
    pub open spec fn wf(&self) -> bool {
        self.air_time.wf()
    }
}

impl View for Show {
    type V = ShowV;

    open spec fn view(&self) -> ShowV {
        ShowV {
            id: self.id@,
            name: self.name@,
            image_url: self.image_url@,
            synopsis: self.synopsis@,
            air_time: self.air_time,
        }
    }
}

impl DeepView for Show {
    type V = ShowV;

    open spec fn deep_view(&self) -> ShowV {
        self@
    }
}

impl Show {
    /// A field-by-field copy.
    pub fn duplicate(&self) -> (s: Show)
        ensures
            s@ == self@,
    {
        Show {
            id: self.id.clone(),
            name: self.name.clone(),
            image_url: self.image_url.clone(),
            synopsis: self.synopsis.clone(),
            air_time: self.air_time,
        }
    }
}

pub open spec fn digit_char(d: int) -> char {
    if d == 0 {
        '0'
    } else if d == 1 {
        '1'
    } else if d == 2 {
        '2'
    } else if d == 3 {
        '3'
    } else if d == 4 {
        '4'
    } else if d == 5 {
        '5'
    } else if d == 6 {
        '6'
    } else if d == 7 {
        '7'
    } else if d == 8 {
        '8'
    } else {
        '9'
    }
}

fn digit_char_exec(d: i32) -> (r: char)
    requires
        0 <= d <= 9,
    ensures
        r == digit_char(d as int),
{
    match d {
        0 => '0',
        1 => '1',
        2 => '2',
        3 => '3',
        4 => '4',
        5 => '5',
        6 => '6',
        7 => '7',
        8 => '8',
        _ => '9',
    }
}

/// `HH:MM` with both parts zero-padded to two digits.
pub open spec fn clock_stamp(h: int, m: int) -> Seq<char> {
    seq![digit_char(h / 10), digit_char(h % 10), ':', digit_char(m / 10), digit_char(m % 10)]
}

/// Renders `HH:MM` for an in-range hour and minute.
pub fn format_clock(h: i32, m: i32) -> (r: String)
    requires
        0 <= h <= 99,
        0 <= m <= 99,
    ensures
        r@ == clock_stamp(h as int, m as int),
{
    let mut s = String::new();
    crate::strutil::push_char(&mut s, digit_char_exec(h / 10));
    crate::strutil::push_char(&mut s, digit_char_exec(h % 10));
    crate::strutil::push_char(&mut s, ':');
    crate::strutil::push_char(&mut s, digit_char_exec(m / 10));
    crate::strutil::push_char(&mut s, digit_char_exec(m % 10));
    proof {
        assert(s@ =~= clock_stamp(h as int, m as int));
    }
    s
}

/// The English name of a weekday, Monday first.
pub open spec fn weekday_name(d: int) -> Seq<char> {
    if d == 0 {
        "Monday"@
    } else if d == 1 {
        "Tuesday"@
    } else if d == 2 {
        "Wednesday"@
    } else if d == 3 {
        "Thursday"@
    } else if d == 4 {
        "Friday"@
    } else if d == 5 {
        "Saturday"@
    } else {
        "Sunday"@
    }
}

impl AirTime {
    /// The seven weekday labels, Monday first.
    pub fn weekdays() -> (r: [&'static str; 7])
        ensures
            forall|d: int| 0 <= d < 7 ==> r@[d]@ == weekday_name(d),
    {
        let r = ["Monday", "Tuesday", "Wednesday", "Thursday", "Friday", "Saturday", "Sunday"];
        proof {
            assert(r@[0]@ == weekday_name(0));
            assert(r@[1]@ == weekday_name(1));
            assert(r@[2]@ == weekday_name(2));
            assert(r@[3]@ == weekday_name(3));
            assert(r@[4]@ == weekday_name(4));
            assert(r@[5]@ == weekday_name(5));
            assert(r@[6]@ == weekday_name(6));
        }
        r
    }

    /// `HH:MM` for an airing show, empty for a non-airing one.
    pub fn to_clock_stamp(&self) -> (r: String)
        requires
            self.wf(),
        ensures
            self.is_airing ==> r@ == clock_stamp(self.est_h as int, self.est_m as int),
            !self.is_airing ==> r@ == Seq::<char>::empty(),
    {
        if !self.is_airing {
            return String::new();
        }
        format_clock(self.est_h, self.est_m)
    }

    /// The weekday label for an airing show, empty for a non-airing one.
    pub fn to_weekday_string(&self) -> (r: String)
        requires
            self.wf(),
        ensures
            self.is_airing ==> r@ == weekday_name(self.est_week_day as int),
            !self.is_airing ==> r@ == Seq::<char>::empty(),
    {
        if !self.is_airing {
            return String::new();
        }
        let weekdays = AirTime::weekdays();
        String::from_str(weekdays[self.est_week_day as usize])
    }

    /// `"<weekday>, <HH:MM>"` for an airing show, empty otherwise.
    pub fn to_string(&self) -> (r: String)
        requires
            self.wf(),
        ensures
            self.is_airing ==> r@ == weekday_name(self.est_week_day as int) + ", "@ + clock_stamp(
                self.est_h as int,
                self.est_m as int,
            ),
            !self.is_airing ==> r@ == Seq::<char>::empty(),
    {
        if !self.is_airing {
            return String::new();
        }
        let mut s = self.to_weekday_string();
        s.append(", ");
        let clock = self.to_clock_stamp();
        s.append(clock.as_str());
        s
    }
}

} // verus!
