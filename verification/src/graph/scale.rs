//! The five temporal resolutions at which a date range is bucketed.

use vstd::prelude::*;

use crate::date::Date;
use crate::date::is_iso_week_of;
use crate::text::dec_str;
use crate::text::dec2_str;
use crate::text::dec4_str;
use crate::text::num_text;
use crate::text::num_text2;
use crate::text::num_text4;

verus! {

/// A temporal resolution for bucketing a date range.
#[derive(PartialEq, Eq, Structural, Debug, Copy, Clone)]
pub enum Scale {
    Day,
    Week,
    Month,
    Year,
    All,
}

/// The five scales, finest first.
pub open spec fn scale_order() -> Seq<Scale> {
    seq![Scale::Day, Scale::Week, Scale::Month, Scale::Year, Scale::All]
}

impl Scale {
    /// All five scales, finest first.
    pub fn iterator() -> (r: Vec<Scale>)
        ensures
            r@ == scale_order(),
    {
        let mut v: Vec<Scale> = Vec::new();
        v.push(Scale::Day);
        v.push(Scale::Week);
        v.push(Scale::Month);
        v.push(Scale::Year);
        v.push(Scale::All);
        proof {
            assert(v@ =~= scale_order());
        }
        v
    }
}

/// The x-axis key of `date` at `scale`: the day as an ISO date, the week as
/// year and ISO week number, the month as year and month number, the year
/// as its number, and a fixed word for the whole range.
pub fn naive_date_to_scale_x(date: &Date, scale: &Scale) -> (r: String)
    requires
        date.valid(),
        date.year <= 9999,
        *scale == Scale::Week ==> date.day_index() >= 2,
    ensures
        match *scale {
            Scale::Day => r@ == dec4_str(date.year as int) + seq!['-'] + dec2_str(
                date.month as int,
            ) + seq!['-'] + dec2_str(date.day as int),
            Scale::Week => exists|wy: int, wk: int|
                #![auto]
                is_iso_week_of(*date, wy, wk) && r@ == dec_str(date.year as int) + seq!['-']
                    + dec_str(wk),
            Scale::Month => r@ == dec_str(date.year as int) + seq!['-'] + dec_str(date.month as int),
            Scale::Year => r@ == dec_str(date.year as int),
            Scale::All => r@ == seq!['a', 'l', 'l'],
        },
{
    proof {
        reveal_strlit("-");
        reveal_strlit("all");
    }
    match scale {
        Scale::Day => {
            let mut s = num_text4(date.year as u16);
            s.append("-");
            let m = num_text2(date.month);
            s.append(m.as_str());
            s.append("-");
            let d = num_text2(date.day);
            s.append(d.as_str());
            proof {
                assert(s@ =~= dec4_str(date.year as int) + seq!['-'] + dec2_str(date.month as int)
                    + seq!['-'] + dec2_str(date.day as int));
            }
            s
        },
        Scale::Week => {
            let (_, wk) = date.iso_week();
            let mut s = num_text(date.year as u64);
            s.append("-");
            let w = num_text(wk as u64);
            s.append(w.as_str());
            proof {
                assert(s@ =~= dec_str(date.year as int) + seq!['-'] + dec_str(wk as int));
            }
            s
        },
        Scale::Month => {
            let mut s = num_text(date.year as u64);
            s.append("-");
            let m = num_text(date.month as u64);
            s.append(m.as_str());
            proof {
                assert(s@ =~= dec_str(date.year as int) + seq!['-'] + dec_str(date.month as int));
            }
            s
        },
        Scale::Year => num_text(date.year as u64),
        Scale::All => {
            let s = "all".to_owned();
            proof {
                assert(s@ =~= seq!['a', 'l', 'l']);
            }
            s
        },
    }
}

} // verus!
