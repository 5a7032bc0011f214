use vstd::prelude::*;
use crate::state::Survey;
use crate::survey::str_eq;

verus! {

/// A sighting: "[Status] The <resource> is <N>m east|west and <M>m north|south."
pub const SIGHTING_PATTERN: &'static str = "\\[Status\\] The (.+) is (\\d+)m (east|west) and (\\d+)m (north|south)\\.";

/// A collection: "[Status] <resource> collected!"
pub const COLLECTED_PATTERN: &'static str = "\\[Status\\] (.+?) collected!";

/// A zone change: "Entering Area: <name>"
pub const ZONE_PATTERN: &'static str = "Entering Area: (.+)";

/// The groups of the leftmost-first match of the regular expression `pattern` in
/// `line`, group 0 (the whole match) first, a group that took no part as empty text;
/// `None` where `pattern` does not compile or nothing matches.
pub uninterp spec fn regex_captures(pattern: Seq<char>, line: Seq<char>) -> Option<Seq<Seq<char>>>;

/// `c` has the Unicode White_Space property.
pub open spec fn is_white_space(c: char) -> bool {
    ('\u{9}' <= c <= '\u{d}') || c == ' ' || c == '\u{85}' || c == '\u{a0}' || c == '\u{1680}'
        || ('\u{2000}' <= c <= '\u{200a}') || c == '\u{2028}' || c == '\u{2029}' || c
        == '\u{202f}' || c == '\u{205f}' || c == '\u{3000}'
}

/// `s` without leading whitespace.
pub open spec fn trim_start_spec(s: Seq<char>) -> Seq<char>
    decreases s.len(),
{
    if s.len() > 0 && is_white_space(s[0]) {
        trim_start_spec(s.drop_first())
    } else {
        s
    }
}

/// `s` without trailing whitespace.
pub open spec fn trim_end_spec(s: Seq<char>) -> Seq<char>
    decreases s.len(),
{
    if s.len() > 0 && is_white_space(s.last()) {
        trim_end_spec(s.drop_last())
    } else {
        s
    }
}

/// `s` without leading and trailing whitespace.
pub open spec fn trimmed(s: Seq<char>) -> Seq<char> {
    trim_end_spec(trim_start_spec(s))
}

/// The texts of a sequence of strings.
pub open spec fn texts(v: Seq<String>) -> Seq<Seq<char>> {
    v.map_values(|s: String| s@)
}

/// Relies on regex::Regex::new, to compile `pattern`, and regex::Regex::captures,
/// for the groups of the leftmost-first match in `line`.
#[verifier::external_body]
fn captures(pattern: &str, line: &str) -> (r: Option<Vec<String>>)
    ensures
        regex_captures(pattern@, line@) == match r {
            Some(v) => Some(texts(v@)),
            None => None,
        },
{
    let re = regex::Regex::new(pattern).ok()?;
    let caps = re.captures(line)?;
    Some(caps.iter().map(|m| m.map_or(String::new(), |m| m.as_str().to_string())).collect())
}

/// Relies on str::trim: the text without leading and trailing characters that have the
/// Unicode White_Space property (`char::is_whitespace`).
#[verifier::external_body]
fn trim(s: &str) -> (r: String)
    ensures
        r@ == trimmed(s@),
{
    s.trim().to_string()
}

/// `s` is a non-empty run of ASCII digits.
pub open spec fn is_digits(s: Seq<char>) -> bool {
    s.len() > 0 && forall|k: int| 0 <= k < s.len() ==> '0' <= #[trigger] s[k] <= '9'
}

/// The decimal value of a run of digits.
pub open spec fn digits_value(s: Seq<char>) -> int
    decreases s.len(),
{
    if s.len() == 0 {
        0
    } else {
        digits_value(s.drop_last()) * 10 + (s.last() as int - '0' as int)
    }
}

/// What `parse::<i32>` gives on a run of digits: its value where it fits, else nothing.
pub open spec fn parse_i32_spec(s: Seq<char>) -> Option<i32> {
    if is_digits(s) && digits_value(s) <= i32::MAX {
        Some(digits_value(s) as i32)
    } else {
        None
    }
}

proof fn lemma_digits_value_nonneg(s: Seq<char>)
    requires
        forall|k: int| 0 <= k < s.len() ==> '0' <= #[trigger] s[k] <= '9',
    ensures
        digits_value(s) >= 0,
    decreases s.len(),
{
    if s.len() > 0 {
        lemma_digits_value_nonneg(s.drop_last());
    }
}

/// Parses a run of ASCII digits as an `i32`.
pub fn parse_digits(s: &str) -> (r: Option<i32>)
    ensures
        r == parse_i32_spec(s@),
        r is Some ==> r->0 >= 0,
{
    let n = s.unicode_len();
    if n == 0 {
        return None;
    }
    let mut acc: i64 = 0;
    let mut over = false;
    let mut i: usize = 0;
    while i < n
        invariant
            n == s@.len(),
            i <= n,
            forall|k: int| 0 <= k < i ==> '0' <= #[trigger] s@[k] <= '9',
            !over ==> acc == digits_value(s@.subrange(0, i as int)),
            over ==> digits_value(s@.subrange(0, i as int)) > i32::MAX,
            0 <= acc <= i32::MAX,
        decreases n - i,
    {
        let c = s.get_char(i);
        if c < '0' || c > '9' {
            assert(!is_digits(s@));
            return None;
        }
        let ghost p = s@.subrange(0, i as int);
        let ghost q = s@.subrange(0, i as int + 1);
        proof {
            assert(q.drop_last() =~= p);
            lemma_digits_value_nonneg(p);
        }
        if !over {
            let next = acc * 10 + (c as u32 - '0' as u32) as i64;
            if next > 2147483647 {
                over = true;
            } else {
                acc = next;
            }
        }
        i = i + 1;
    }
    proof {
        assert(s@.subrange(0, n as int) =~= s@);
    }
    if over {
        None
    } else {
        Some(acc as i32)
    }
}

/// The survey that a sighting's groups describe: the resource, the east offset (negative
/// to the west) and the south offset (negative to the north); a distance that does not
/// parse counts as zero.
pub open spec fn sighting_spec(caps: Seq<Seq<char>>) -> Option<(Seq<char>, int, int)> {
    if caps.len() < 6 {
        None
    } else {
        let x = match parse_i32_spec(caps[2]) {
            Some(v) => v as int,
            None => 0,
        };
        let y = match parse_i32_spec(caps[4]) {
            Some(v) => v as int,
            None => 0,
        };
        Some(
            (
                caps[1],
                if caps[3] == "west"@ { -x } else { x },
                if caps[5] == "north"@ { -y } else { y },
            ),
        )
    }
}

/// A survey that matches `(resource, dx, dy)` and is not yet found.
pub open spec fn is_new_survey(s: Survey, v: (Seq<char>, int, int)) -> bool {
    s.resource@ == v.0 && s.dx == v.1 && s.dy == v.2 && !s.found
}

/// Builds the survey from the groups of a sighting match.
pub fn sighting_from_captures(caps: &Vec<String>) -> (r: Option<Survey>)
    ensures
        r is Some <==> sighting_spec(texts(caps@)) is Some,
        r is Some ==> is_new_survey(r->0, sighting_spec(texts(caps@))->0),
{
    if caps.len() < 6 {
        return None;
    }
    let ghost t = texts(caps@);
    assert(t[2] == caps@[2]@ && t[3] == caps@[3]@ && t[4] == caps@[4]@ && t[5] == caps@[5]@);
    let mut dx: i32 = match parse_digits(caps[2].as_str()) {
        Some(v) => v,
        None => 0,
    };
    if str_eq(caps[3].as_str(), "west") {
        dx = -dx;
    }
    let mut dy: i32 = match parse_digits(caps[4].as_str()) {
        Some(v) => v,
        None => 0,
    };
    if str_eq(caps[5].as_str(), "north") {
        dy = -dy;
    }
    Some(Survey { resource: caps[1].clone(), dx, dy, found: false })
}

/// The zone named by a zone-change match, trimmed.
pub open spec fn zone_spec(caps: Seq<Seq<char>>) -> Option<Seq<char>> {
    if caps.len() < 2 {
        None
    } else {
        Some(trimmed(caps[1]))
    }
}

/// The sighting that `line` reports, if any.
pub open spec fn sighting_of_line(line: Seq<char>) -> Option<(Seq<char>, int, int)> {
    match regex_captures(SIGHTING_PATTERN@, line) {
        Some(caps) => sighting_spec(caps),
        None => None,
    }
}

/// The zone that `line` reports entering, if any.
pub open spec fn zone_of_line(line: Seq<char>) -> Option<Seq<char>> {
    match regex_captures(ZONE_PATTERN@, line) {
        Some(caps) => zone_spec(caps),
        None => None,
    }
}

/// `line` reports a collection.
pub open spec fn collects(line: Seq<char>) -> bool {
    regex_captures(COLLECTED_PATTERN@, line) is Some
}

/// Parses a sighting line.
pub fn parse_sighting(line: &str) -> (r: Option<Survey>)
    ensures
        r is Some <==> sighting_of_line(line@) is Some,
        r is Some ==> is_new_survey(r->0, sighting_of_line(line@)->0),
{
    match captures(SIGHTING_PATTERN, line) {
        Some(caps) => sighting_from_captures(&caps),
        None => None,
    }
}

/// Tells whether `line` reports a collection.
pub fn is_collection(line: &str) -> (r: bool)
    ensures
        r == collects(line@),
{
    match captures(COLLECTED_PATTERN, line) {
        Some(_) => true,
        None => false,
    }
}

/// Parses a zone-change line into the new zone's name.
pub fn parse_zone(line: &str) -> (r: Option<String>)
    ensures
        r is Some <==> zone_of_line(line@) is Some,
        r is Some ==> r->0@ == zone_of_line(line@)->0,
{
    match captures(ZONE_PATTERN, line) {
        Some(caps) => {
            if caps.len() < 2 {
                None
            } else {
                assert(texts(caps@)[1] == caps@[1]@);
                Some(trim(caps[1].as_str()))
            }
        },
        None => None,
    }
}

} // verus!
