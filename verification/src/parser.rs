//! The record grammar: one line of text plus a calendar day becomes an
//! activity.  A line is two `HHhMM` times joined by a dash, a colon, any
//! number of bracketed tags, and a trailing description.  Tags matching one
//! of the known action words name the action (the first one wins); all
//! other tags are project labels.  Whitespace here is the ASCII set: space,
//! tab, carriage return and line feed.

use vstd::prelude::*;

use crate::activity::Action;
use crate::activity::Activity;
use crate::activity::action_word;
use crate::activity::contains_label;
use crate::activity::merge_labels;
use crate::date::Date;
use crate::date::DateTime;
use crate::text::digit_value;
use crate::text::is_ws;
use crate::text::ws;

verus! {

/// Why a line or field fails to parse.
#[derive(PartialEq, Eq, Structural, Debug, Copy, Clone)]
pub enum ParseError {
    /// A time field is not five characters `HHhMM` naming a valid time.
    Time,
    /// The dash between the two times is missing.
    Dash,
    /// The colon after the times is missing.
    Colon,
    /// A tag bracket is opened but never closed.
    Tag,
    /// A date is not `YYYY.MM.DD` naming a valid calendar date.
    Date,
}

/// The first position at or after `i` (and at most `to`) holding no
/// whitespace.
pub open spec fn skip_ws_spec(s: Seq<char>, i: int, to: int) -> int
    decreases to - i,
{
    if i < to && is_ws(s[i]) {
        skip_ws_spec(s, i + 1, to)
    } else {
        i
    }
}

/// The last position at or before `j` (and at least `from`) with no
/// whitespace just before it.
pub open spec fn rskip_ws_spec(s: Seq<char>, j: int, from: int) -> int
    decreases j - from,
{
    if j > from && is_ws(s[j - 1]) {
        rskip_ws_spec(s, j - 1, from)
    } else {
        j
    }
}

/// The characters of `s` between `from` and `to`, with surrounding
/// whitespace dropped.
pub open spec fn trimmed(s: Seq<char>, from: int, to: int) -> Seq<char> {
    let a = skip_ws_spec(s, from, to);
    let b = rskip_ws_spec(s, to, from);
    if a < b {
        s.subrange(a, b)
    } else {
        Seq::empty()
    }
}

/// The value of the digit at `i`, or -1 when `i` holds no digit.
pub open spec fn digit_at(s: Seq<char>, i: int) -> int {
    if 0 <= i < s.len() {
        crate::text::char_digit(s[i])
    } else {
        -1
    }
}

/// Parses a five-character `HHhMM` time field at `i`, surrounded by
/// optional whitespace: the position after it, and the hour and minute.
pub open spec fn parse_time_spec(s: Seq<char>, i: int) -> Option<(int, int, int)> {
    let j = skip_ws_spec(s, i, s.len() as int);
    if j + 5 <= s.len() && digit_at(s, j) >= 0 && digit_at(s, j + 1) >= 0 && s[j + 2] == 'h'
        && digit_at(s, j + 3) >= 0 && digit_at(s, j + 4) >= 0 {
        let hh = digit_at(s, j) * 10 + digit_at(s, j + 1);
        let mm = digit_at(s, j + 3) * 10 + digit_at(s, j + 4);
        if hh < 24 && mm < 60 {
            Some((skip_ws_spec(s, j + 5, s.len() as int), hh, mm))
        } else {
            None
        }
    } else {
        None
    }
}

/// The position of the first `']'` at or after `i`, or the text's length
/// when there is none.
pub open spec fn find_close_spec(s: Seq<char>, i: int) -> int
    decreases s.len() - i,
{
    if 0 <= i < s.len() {
        if s[i] == ']' {
            i
        } else {
            find_close_spec(s, i + 1)
        }
    } else {
        s.len() as int
    }
}

/// Parses one bracketed tag at `i`, surrounded by optional whitespace: the
/// position after it and the trimmed tag word.
pub open spec fn parse_tag_spec(s: Seq<char>, i: int) -> Option<(int, Seq<char>)> {
    let j = skip_ws_spec(s, i, s.len() as int);
    if j < s.len() && s[j] == '[' {
        let k = find_close_spec(s, j + 1);
        if k < s.len() {
            Some((skip_ws_spec(s, k + 1, s.len() as int), trimmed(s, j + 1, k)))
        } else {
            None
        }
    } else {
        None
    }
}

/// The action named by a tag word, if it is one of the known action words.
pub open spec fn word_action(w: Seq<char>) -> Option<Action> {
    if w == action_word(Action::Review) {
        Some(Action::Review)
    } else if w == action_word(Action::Meeting) {
        Some(Action::Meeting)
    } else if w == action_word(Action::Research) {
        Some(Action::Research)
    } else if w == action_word(Action::Code) {
        Some(Action::Code)
    } else if w == action_word(Action::Docs) {
        Some(Action::Docs)
    } else {
        None
    }
}

/// Parses as many tags as stand at `i`: the position after them, the first
/// action word among them, and the project words in order, duplicates kept.
pub open spec fn parse_tags_rec(s: Seq<char>, i: int, fuel: nat) -> (int, Option<Action>, Seq<
    Seq<char>,
>)
    decreases fuel,
{
    if fuel == 0 {
        (i, None, Seq::empty())
    } else {
        match parse_tag_spec(s, i) {
            None => (i, None, Seq::empty()),
            Some((n, w)) => {
                if n <= i {
                    (i, None, Seq::empty())
                } else {
                    let (np, act, projs) = parse_tags_rec(s, n, (fuel - 1) as nat);
                    match word_action(w) {
                        Some(a) => (np, Some(a), projs),
                        None => (np, act, seq![w] + projs),
                    }
                }
            },
        }
    }
}

/// Parses as many tags as stand at `i`, with enough fuel for the whole
/// text.
pub open spec fn parse_tags_spec(s: Seq<char>, i: int) -> (int, Option<Action>, Seq<Seq<char>>) {
    parse_tags_rec(s, i, (s.len() + 1 - i) as nat)
}

/// The parts of one parsed record line.
pub struct ParsedLine {
    pub start_datetime: DateTime,
    pub end_datetime: DateTime,
    pub action: Action,
    pub raw_projects: Seq<Seq<char>>,
    pub description: Seq<char>,
}

/// Parses one whole line on day `day`: two times joined by a dash, a
/// colon, the tags, and the trimmed rest as description.  A line whose tag
/// text opens a bracket that never closes is refused.
pub open spec fn parse_line_spec(day: Date, s: Seq<char>) -> Result<ParsedLine, ParseError> {
    match parse_time_spec(s, 0) {
        None => Err(ParseError::Time),
        Some((p1, h1, m1)) => {
            if p1 < s.len() && s[p1] == '-' {
                match parse_time_spec(s, p1 + 1) {
                    None => Err(ParseError::Time),
                    Some((p3, h2, m2)) => {
                        if p3 < s.len() && s[p3] == ':' {
                            let (p4, act, raws) = parse_tags_spec(s, p3 + 1);
                            let p5 = skip_ws_spec(s, p4, s.len() as int);
                            if p5 < s.len() && s[p5] == '[' {
                                Err(ParseError::Tag)
                            } else {
                                Ok(
                                    ParsedLine {
                                        start_datetime: DateTime {
                                            date: day,
                                            hour: h1 as u8,
                                            minute: m1 as u8,
                                        },
                                        end_datetime: DateTime {
                                            date: day,
                                            hour: h2 as u8,
                                            minute: m2 as u8,
                                        },
                                        action: match act {
                                            Some(a) => a,
                                            None => Action::Unknown,
                                        },
                                        raw_projects: raws,
                                        description: trimmed(s, p4, s.len() as int),
                                    },
                                )
                            }
                        } else {
                            Err(ParseError::Colon)
                        }
                    },
                }
            } else {
                Err(ParseError::Dash)
            }
        },
    }
}

/// Whitespace skipping stays between its bounds.
pub proof fn lemma_skip_ws_bounds(s: Seq<char>, i: int, to: int)
    requires
        i <= to,
    ensures
        i <= skip_ws_spec(s, i, to) <= to,
    decreases to - i,
{
    if i < to && is_ws(s[i]) {
        lemma_skip_ws_bounds(s, i + 1, to);
    }
}

/// Backward whitespace skipping stays between its bounds.
pub proof fn lemma_rskip_ws_bounds(s: Seq<char>, j: int, from: int)
    requires
        from <= j,
    ensures
        from <= rskip_ws_spec(s, j, from) <= j,
    decreases j - from,
{
    if j > from && is_ws(s[j - 1]) {
        lemma_rskip_ws_bounds(s, j - 1, from);
    }
}

/// The closing-bracket search stays between its bounds.
pub proof fn lemma_find_close_bounds(s: Seq<char>, i: int)
    requires
        0 <= i <= s.len(),
    ensures
        i <= find_close_spec(s, i) <= s.len(),
    decreases s.len() - i,
{
    if 0 <= i < s.len() && s[i] != ']' {
        lemma_find_close_bounds(s, i + 1);
    }
}

/// A parsed tag moves the position strictly forward.
pub proof fn lemma_tag_progress(s: Seq<char>, i: int)
    requires
        0 <= i <= s.len(),
    ensures
        match parse_tag_spec(s, i) {
            Some((n, w)) => i < n <= s.len(),
            None => true,
        },
{
    lemma_skip_ws_bounds(s, i, s.len() as int);
    let j = skip_ws_spec(s, i, s.len() as int);
    if j < s.len() && s[j] == '[' {
        lemma_find_close_bounds(s, j + 1);
        let k = find_close_spec(s, j + 1);
        if k < s.len() {
            lemma_skip_ws_bounds(s, k + 1, s.len() as int);
        }
    }
}

/// With fuel for the rest of the text, the tag fold is fuel-independent.
pub proof fn lemma_tags_fuel(s: Seq<char>, i: int, fuel: nat)
    requires
        0 <= i <= s.len(),
        fuel >= s.len() + 1 - i,
    ensures
        parse_tags_rec(s, i, fuel) == parse_tags_spec(s, i),
    decreases fuel,
{
    lemma_tag_progress(s, i);
    match parse_tag_spec(s, i) {
        None => {},
        Some((n, w)) => {
            lemma_tags_fuel(s, n, (fuel - 1) as nat);
            lemma_tags_fuel(s, n, (s.len() - i) as nat);
        },
    }
}

/// Skips whitespace from `i` up to `to`.
fn skip_ws_to(s: &str, i: usize, to: usize) -> (r: usize)
    requires
        i <= to <= s@.len(),
    ensures
        r as int == skip_ws_spec(s@, i as int, to as int),
        i <= r <= to,
{
    proof {
        lemma_skip_ws_bounds(s@, i as int, to as int);
    }
    let mut r = i;
    while r < to && ws(s.get_char(r))
        invariant
            i <= r <= to,
            to <= s@.len(),
            skip_ws_spec(s@, i as int, to as int) == skip_ws_spec(s@, r as int, to as int),
        decreases to - r,
    {
        r = r + 1;
    }
    r
}

/// The position of the first closing bracket at or after `i`.
fn find_close(s: &str, i: usize) -> (r: usize)
    requires
        i <= s@.len(),
    ensures
        r as int == find_close_spec(s@, i as int),
        i <= r <= s@.len(),
{
    proof {
        lemma_find_close_bounds(s@, i as int);
    }
    let len = s.unicode_len();
    let mut r = i;
    while r < len && s.get_char(r) != ']'
        invariant
            i <= r <= len,
            len == s@.len(),
            find_close_spec(s@, i as int) == find_close_spec(s@, r as int),
        decreases len - r,
    {
        r = r + 1;
    }
    r
}

/// Copies the characters between `from` and `to`, dropping surrounding
/// whitespace.
fn extract_trimmed(s: &str, from: usize, to: usize) -> (r: String)
    requires
        from <= to <= s@.len(),
    ensures
        r@ == trimmed(s@, from as int, to as int),
{
    proof {
        lemma_rskip_ws_bounds(s@, to as int, from as int);
    }
    let a = skip_ws_to(s, from, to);
    let mut b = to;
    while b > from && ws(s.get_char(b - 1))
        invariant
            from <= b <= to,
            to <= s@.len(),
            rskip_ws_spec(s@, to as int, from as int) == rskip_ws_spec(s@, b as int, from as int),
        decreases b,
    {
        b = b - 1;
    }
    if a < b {
        s.substring_char(a, b).to_owned()
    } else {
        let r = String::new();
        proof {
            assert(r@ =~= Seq::<char>::empty());
        }
        r
    }
}

/// Parses a five-character `HHhMM` time field at `from`, surrounded by
/// optional whitespace, as a moment of day `date`.
pub fn parse_time(date: &Date, input: &str, from: usize) -> (r: Result<(usize, DateTime), ParseError>)
    requires
        date.valid(),
        date.year <= 9999,
        from <= input@.len(),
    ensures
        match r {
            Ok((n, dt)) => {
                &&& parse_time_spec(input@, from as int) == Some(
                    (n as int, dt.hour as int, dt.minute as int),
                )
                &&& dt.date == *date
                &&& n <= input@.len()
                &&& dt.valid()
            },
            Err(e) => parse_time_spec(input@, from as int) is None && e == ParseError::Time,
        },
{
    let len = input.unicode_len();
    let j = skip_ws_to(input, from, len);
    if len < 5 || j > len - 5 {
        return Err(ParseError::Time);
    }
    let d0 = digit_value(input.get_char(j));
    let d1 = digit_value(input.get_char(j + 1));
    let hsep = input.get_char(j + 2);
    let d3 = digit_value(input.get_char(j + 3));
    let d4 = digit_value(input.get_char(j + 4));
    match (d0, d1, d3, d4) {
        (Some(a), Some(b), Some(c), Some(d)) => {
            if hsep == 'h' {
                let hh = a * 10 + b;
                let mm = c * 10 + d;
                if hh < 24 && mm < 60 {
                    let n = skip_ws_to(input, j + 5, len);
                    Ok((n, DateTime { date: *date, hour: hh, minute: mm }))
                } else {
                    Err(ParseError::Time)
                }
            } else {
                Err(ParseError::Time)
            }
        },
        _ => Err(ParseError::Time),
    }
}

/// Parses one bracketed tag at `from`, surrounded by optional whitespace,
/// returning the position after it and the trimmed tag word.
pub fn parse_tag(input: &str, from: usize) -> (r: Result<(usize, String), ParseError>)
    requires
        from <= input@.len(),
    ensures
        match r {
            Ok((n, w)) => parse_tag_spec(input@, from as int) == Some((n as int, w@)) && from < n
                <= input@.len(),
            Err(e) => parse_tag_spec(input@, from as int) is None && e == ParseError::Tag,
        },
{
    proof {
        lemma_tag_progress(input@, from as int);
    }
    let len = input.unicode_len();
    let j = skip_ws_to(input, from, len);
    if j < len && input.get_char(j) == '[' {
        let k = find_close(input, j + 1);
        if k < len {
            let w = extract_trimmed(input, j + 1, k);
            let n = skip_ws_to(input, k + 1, len);
            Ok((n, w))
        } else {
            Err(ParseError::Tag)
        }
    } else {
        Err(ParseError::Tag)
    }
}

/// Parses as many tags as stand at `from`: the position after them, the
/// first action word among them, and the project labels in order of first
/// occurrence, without duplicates.
pub fn parse_tags(input: &str, from: usize) -> (r: (usize, Option<Action>, Vec<String>))
    requires
        from <= input@.len(),
    ensures
        r.0 as int == parse_tags_spec(input@, from as int).0,
        r.1 == parse_tags_spec(input@, from as int).1,
        r.2.deep_view() == merge_labels(Seq::empty(), parse_tags_spec(input@, from as int).2),
        from <= r.0 <= input@.len(),
{
    let ghost s = input@;
    let mut pos = from;
    let mut action: Option<Action> = None;
    let mut projects: Vec<String> = Vec::new();
    let ghost mut collected: Seq<Seq<char>> = Seq::empty();
    proof {
        assert(merge_labels(Seq::empty(), Seq::<Seq<char>>::empty()) == Seq::<Seq<char>>::empty());
        assert(projects.deep_view() =~= Seq::<Seq<char>>::empty());
    }
    loop
        invariant
            from <= pos <= s.len(),
            s == input@,
            parse_tags_spec(s, from as int).0 == parse_tags_spec(s, pos as int).0,
            parse_tags_spec(s, from as int).1 == match action {
                Some(a) => Some(a),
                None => parse_tags_spec(s, pos as int).1,
            },
            parse_tags_spec(s, from as int).2 == collected + parse_tags_spec(s, pos as int).2,
            projects.deep_view() == merge_labels(Seq::empty(), collected),
        decreases s.len() - pos,
    {
        proof {
            lemma_tag_progress(s, pos as int);
        }
        let step = parse_tag(input, pos);
        match step {
            Err(_) => {
                proof {
                    assert(parse_tags_rec(s, pos as int, (s.len() + 1 - pos) as nat) == (
                        pos as int,
                        None::<Action>,
                        Seq::<Seq<char>>::empty(),
                    ));
                    assert(parse_tags_spec(s, from as int).2 =~= collected);
                }
                return (pos, action, projects);
            },
            Ok((n, w)) => {
                proof {
                    let fuel = (s.len() + 1 - pos) as nat;
                    assert(parse_tags_rec(s, pos as int, fuel) == {
                        let (np, act, projs) = parse_tags_rec(s, n as int, (fuel - 1) as nat);
                        match word_action(w@) {
                            Some(a) => (np, Some(a), projs),
                            None => (np, act, seq![w@] + projs),
                        }
                    });
                    lemma_tags_fuel(s, n as int, (fuel - 1) as nat);
                }
                let acted = Action::from_text(w.as_str());
                proof {
                    match acted {
                        Some(a) => {
                            assert(w@ == action_word(a));
                            assert(word_action(w@) == Some(a));
                        },
                        None => {
                            assert(word_action(w@) is None);
                        },
                    }
                }
                match acted {
                    Some(a) => {
                        if action.is_none() {
                            action = Some(a);
                        }
                    },
                    None => {
                        let ghost wv = w@;
                        proof {
                            crate::activity::lemma_merge_labels_snoc(Seq::empty(), collected, wv);
                            assert((collected.push(wv)) + parse_tags_spec(s, n as int).2
                                =~= collected + (seq![wv] + parse_tags_spec(s, n as int).2));
                        }
                        if !contains_label(&projects, w.as_str()) {
                            let ghost pre = projects@;
                            let ghost entry = projects.deep_view();
                            projects.push(w);
                            proof {
                                let target = entry.push(wv);
                                assert forall|q: int|
                                    0 <= q < entry.len() + 1 implies projects.deep_view()[q]
                                    == target[q] by {
                                    assert(projects.deep_view()[q] == projects@[q].deep_view());
                                    if q < entry.len() {
                                        assert(projects@[q] == pre[q]);
                                        assert(pre[q].deep_view() == entry[q]);
                                    }
                                }
                                assert(projects.deep_view() =~= target);
                            }
                        }
                        proof {
                            collected = collected.push(wv);
                        }
                    },
                }
                pos = n;
            },
        }
    }
}

/// Parses one whole record line on day `date` into an activity.  The tag
/// words naming actions pick the activity's action, the first one winning
/// and `Unknown` standing in when there is none; the other tag words are
/// the project labels, kept once each in order of first occurrence.
pub fn parse_activity(date: &Date, input: &str) -> (r: Result<Activity, ParseError>)
    requires
        date.valid(),
        date.year <= 9999,
    ensures
        match r {
            Ok(a) => {
                &&& parse_line_spec(*date, input@) is Ok
                &&& a@.start_datetime == parse_line_spec(*date, input@)->Ok_0.start_datetime
                &&& a@.end_datetime == parse_line_spec(*date, input@)->Ok_0.end_datetime
                &&& a@.action == parse_line_spec(*date, input@)->Ok_0.action
                &&& a@.projects == merge_labels(
                    Seq::empty(),
                    parse_line_spec(*date, input@)->Ok_0.raw_projects,
                )
                &&& a@.description == parse_line_spec(*date, input@)->Ok_0.description
                &&& a@.wf()
            },
            Err(e) => parse_line_spec(*date, input@) == Err::<ParsedLine, ParseError>(e),
        },
{
    let len = input.unicode_len();
    let first = match parse_time(date, input, 0) {
        Ok(v) => v,
        Err(e) => {
            return Err(ParseError::Time);
        },
    };
    let (p1, start_datetime) = first;
    if !(p1 < len && input.get_char(p1) == '-') {
        return Err(ParseError::Dash);
    }
    let second = match parse_time(date, input, p1 + 1) {
        Ok(v) => v,
        Err(e) => {
            return Err(ParseError::Time);
        },
    };
    let (p3, end_datetime) = second;
    if !(p3 < len && input.get_char(p3) == ':') {
        return Err(ParseError::Colon);
    }
    let (p4, act, projects) = parse_tags(input, p3 + 1);
    let p5 = skip_ws_to(input, p4, len);
    if p5 < len && input.get_char(p5) == '[' {
        return Err(ParseError::Tag);
    }
    let description = extract_trimmed(input, p4, len);
    let action = match act {
        Some(a) => a,
        None => Action::Unknown,
    };
    let a = Activity { start_datetime, end_datetime, description, action, projects };
    proof {
        crate::activity::lemma_merge_labels_ok(
            Seq::empty(),
            parse_tags_spec(input@, p3 + 1).2,
        );
    }
    Ok(a)
}

/// Parses `YYYY.MM.DD`, exactly ten characters naming a valid calendar
/// date.
pub fn parse_date(input: &str) -> (r: Result<Date, ParseError>)
    ensures
        match r {
            Ok(d) => parse_date_spec(input@) == Some(d) && d.valid() && d.year <= 9999,
            Err(e) => parse_date_spec(input@) is None && e == ParseError::Date,
        },
{
    let len = input.unicode_len();
    if len != 10 {
        return Err(ParseError::Date);
    }
    let d0 = digit_value(input.get_char(0));
    let d1 = digit_value(input.get_char(1));
    let d2 = digit_value(input.get_char(2));
    let d3 = digit_value(input.get_char(3));
    let dot1 = input.get_char(4);
    let d5 = digit_value(input.get_char(5));
    let d6 = digit_value(input.get_char(6));
    let dot2 = input.get_char(7);
    let d8 = digit_value(input.get_char(8));
    let d9 = digit_value(input.get_char(9));
    match (d0, d1, d2, d3, d5, d6, d8, d9) {
        (Some(a), Some(b), Some(c), Some(d), Some(e), Some(f), Some(g), Some(h)) => {
            if dot1 == '.' && dot2 == '.' {
                let y = (a as i32) * 1000 + (b as i32) * 100 + (c as i32) * 10 + (d as i32);
                let m = e * 10 + f;
                let dd = g * 10 + h;
                match Date::new(y, m, dd) {
                    Some(day) => Ok(day),
                    None => Err(ParseError::Date),
                }
            } else {
                Err(ParseError::Date)
            }
        },
        _ => Err(ParseError::Date),
    }
}

/// The specification of [`parse_date`].
pub open spec fn parse_date_spec(s: Seq<char>) -> Option<Date> {
    if s.len() == 10 && digit_at(s, 0) >= 0 && digit_at(s, 1) >= 0 && digit_at(s, 2) >= 0
        && digit_at(s, 3) >= 0 && s[4] == '.' && digit_at(s, 5) >= 0 && digit_at(s, 6) >= 0 && s[7]
        == '.' && digit_at(s, 8) >= 0 && digit_at(s, 9) >= 0 {
        let y = digit_at(s, 0) * 1000 + digit_at(s, 1) * 100 + digit_at(s, 2) * 10 + digit_at(s, 3);
        let m = digit_at(s, 5) * 10 + digit_at(s, 6);
        let dd = digit_at(s, 8) * 10 + digit_at(s, 9);
        let d = Date { year: y as i32, month: m as u8, day: dd as u8 };
        if d.valid() {
            Some(d)
        } else {
            None
        }
    } else {
        None
    }
}

} // verus!
