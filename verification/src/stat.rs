//! The activity statistic: daily message counts labelled with the day of
//! the month, wrapping after the 30th.

use vstd::prelude::*;

verus! {

/// The decimal digit character for `d`.
pub open spec fn digit_char(d: int) -> char {
    if d == 0 {
        '0'
    } else if d == 1 {
        '1'
    } else if d == 2 {
        '2'
    } else if d == 3 {
        '3'
    } else if d == 4 {
        '4'
    } else if d == 5 {
        '5'
    } else if d == 6 {
        '6'
    } else if d == 7 {
        '7'
    } else if d == 8 {
        '8'
    } else {
        '9'
    }
}

/// `n` in decimal, without leading zeros.
pub open spec fn spec_decimal(n: u8) -> Seq<char> {
    if n < 10 {
        seq![digit_char(n as int)]
    } else if n < 100 {
        seq![digit_char(n as int / 10), digit_char(n as int % 10)]
    } else {
        seq![
            digit_char(n as int / 100),
            digit_char((n as int / 10) % 10),
            digit_char(n as int % 10),
        ]
    }
}

/// The day label of the `i`-th entry: days count up from `start` and
/// wrap to 1 past the 30th.
pub open spec fn spec_nth_day(start: u8, i: int) -> u8
    decreases i,
{
    if i <= 0 {
        start
    } else {
        let p = spec_nth_day(start, i - 1);
        if p + 1 > 30 {
            1
        } else {
            (p + 1) as u8
        }
    }
}

fn digit_str(d: u8) -> (r: &'static str)
    requires
        d <= 9,
    ensures
        r@ =~= seq![digit_char(d as int)],
{
    proof {
        reveal_strlit("0");
        reveal_strlit("1");
        reveal_strlit("2");
        reveal_strlit("3");
        reveal_strlit("4");
        reveal_strlit("5");
        reveal_strlit("6");
        reveal_strlit("7");
        reveal_strlit("8");
        reveal_strlit("9");
    }
    match d {
        0 => "0",
        1 => "1",
        2 => "2",
        3 => "3",
        4 => "4",
        5 => "5",
        6 => "6",
        7 => "7",
        8 => "8",
        _ => "9",
    }
}

/// `n` in decimal.
pub fn decimal(n: u8) -> (s: String)
    ensures
        s@ == spec_decimal(n),
{
    let mut s = String::new();
    if n >= 100 {
        s.append(digit_str(n / 100));
        s.append(digit_str((n / 10) % 10));
        s.append(digit_str(n % 10));
        proof {
            assert(s@ =~= spec_decimal(n));
        }
    } else if n >= 10 {
        s.append(digit_str(n / 10));
        s.append(digit_str(n % 10));
        proof {
            assert(s@ =~= spec_decimal(n));
        }
    } else {
        s.append(digit_str(n));
        proof {
            assert(s@ =~= spec_decimal(n));
        }
    }
    s
}

/// Activity counts and the day labels they belong to.
pub struct Stat {
    activity: Vec<u64>,
    _days: Vec<String>,
}

impl Stat {
    pub closed spec fn activity_view(self) -> Seq<u64> {
        self.activity@
    }

    pub closed spec fn days_view(self) -> Seq<Seq<char>> {
        self._days@.map_values(|s: String| s@)
    }

    pub open spec fn wf(self) -> bool {
        self.days_view().len() == self.activity_view().len()
    }

    /// Label `activity[i]` with the day `start + i`, wrapping to 1 after
    /// the 30th. The starting day must leave room for one increment, as
    /// the day counter steps before it wraps. The month only names where
    /// the series starts; the labels show days alone, so it does not
    /// affect the result.
    pub fn new(month: u8, day: u8, activity: &[u64]) -> (s: Stat)
        requires
            activity@.len() > 0 ==> day < 255,
        ensures
            s.wf(),
            s.activity_view() == activity@,
            s.days_view().len() == activity@.len(),
            forall|i: int|
                0 <= i < activity@.len() ==> s.days_view()[i] == spec_decimal(
                    spec_nth_day(day, i),
                ),
    {
        let _ = month;
        let mut d: u8 = day;
        let mut days: Vec<String> = Vec::new();
        let mut acts: Vec<u64> = Vec::new();
        let n: usize = activity.len();
        let mut i: usize = 0;
        while i < n
            invariant
                0 <= i <= n,
                n == activity@.len(),
                n > 0 ==> day < 255,
                days@.len() == i,
                acts@.len() == i,
                acts@ =~= activity@.take(i as int),
                d == spec_nth_day(day, i as int),
                i > 0 ==> d <= 30,
                forall|j: int| 0 <= j < i ==> days@[j]@ == spec_decimal(spec_nth_day(day, j)),
            decreases n - i,
        {
            days.push(decimal(d));
            acts.push(vstd::slice::slice_index_get(activity, i).clone());
            proof {
                assert(acts@ =~= activity@.take(i as int).push(activity@[i as int]));
                assert(activity@.take(i as int).push(activity@[i as int]) =~= activity@.take(
                    i as int + 1,
                ));
            }
            if d >= 30 {
                d = 1;
            } else {
                d = d + 1;
            }
            i = i + 1;
        }
        proof {
            assert(activity@.take(n as int) =~= activity@);
        }
        let s = Stat { activity: acts, _days: days };
        proof {
            assert(s.days_view().len() == days@.len());
            assert forall|i2: int| 0 <= i2 < activity@.len() implies s.days_view()[i2]
                == spec_decimal(spec_nth_day(day, i2)) by {
                assert(s.days_view()[i2] == days@[i2]@);
            }
        }
        s
    }

    /// Each day label paired with its activity count, in order.
    pub fn data<'a>(&'a self) -> (out: Vec<(&'a str, u64)>)
        requires
            self.wf(),
        ensures
            out@.len() == self.activity_view().len(),
            forall|i: int|
                0 <= i < out@.len() ==> out@[i].0@ == self.days_view()[i] && out@[i].1
                    == self.activity_view()[i],
    {
        let n: usize = self.activity.len();
        let mut out: Vec<(&'a str, u64)> = Vec::new();
        let mut i: usize = 0;
        while i < n
            invariant
                0 <= i <= n,
                n == self.activity@.len(),
                self._days@.len() == n,
                out@.len() == i,
                forall|j: int|
                    0 <= j < i ==> out@[j].0@ == self.days_view()[j] && out@[j].1
                        == self.activity_view()[j],
            decreases n - i,
        {
            let label: &'a str = self._days[i].as_str();
            out.push((label, self.activity[i]));
            i = i + 1;
        }
        out
    }
}

} // verus!
