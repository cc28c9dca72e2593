use crate::world::{GameState, Position};
use std::collections::BTreeMap;
use vstd::prelude::*;

verus! {

/// Whether `c` is an ASCII decimal digit.
pub open spec fn is_digit(c: char) -> bool {
    '0' <= c <= '9'
}

pub open spec fn all_digits(s: Seq<char>) -> bool {
    forall|i: int| 0 <= i < s.len() ==> is_digit(#[trigger] s[i])
}

/// The number that the decimal digits `s` spell, most significant first.
pub open spec fn digits_value(s: Seq<char>) -> int
    decreases s.len(),
{
    if s.len() == 0 {
        0
    } else {
        digits_value(s.drop_last()) * 10 + (s.last() as int - '0' as int)
    }
}

/// The value of an unsigned decimal literal: an optional `+`, then one or more digits.
pub open spec fn unsigned_value(s: Seq<char>) -> Option<int> {
    let body = if s.len() > 0 && s[0] == '+' {
        s.drop_first()
    } else {
        s
    };
    if body.len() > 0 && all_digits(body) {
        Some(digits_value(body))
    } else {
        None
    }
}

/// The value of a signed decimal literal: an optional `+` or `-`, then one or more digits.
pub open spec fn signed_value(s: Seq<char>) -> Option<int> {
    if s.len() > 0 && s[0] == '-' {
        let body = s.drop_first();
        if body.len() > 0 && all_digits(body) {
            Some(-digits_value(body))
        } else {
            None
        }
    } else {
        unsigned_value(s)
    }
}

/// `s` read as a `usize`: a literal of `unsigned_value` whose value fits.
pub open spec fn usize_text(s: Seq<char>) -> Option<usize> {
    match unsigned_value(s) {
        Some(v) => if v <= usize::MAX {
            Some(v as usize)
        } else {
            None
        },
        None => None,
    }
}

/// `s` read as an `i32`: a literal of `signed_value` whose value fits.
pub open spec fn i32_text(s: Seq<char>) -> Option<i32> {
    match signed_value(s) {
        Some(v) => if i32::MIN <= v <= i32::MAX {
            Some(v as i32)
        } else {
            None
        },
        None => None,
    }
}

proof fn lemma_digits_value_nonneg(s: Seq<char>)
    requires
        all_digits(s),
    ensures
        digits_value(s) >= 0,
    decreases s.len(),
{
    if s.len() > 0 {
        lemma_digits_value_nonneg(s.drop_last());
    }
}

/// A longer run of digits never spells a smaller number than its prefix.
proof fn lemma_digits_value_prefix(s: Seq<char>, j: int)
    requires
        all_digits(s),
        0 <= j <= s.len(),
    ensures
        digits_value(s.take(j)) <= digits_value(s),
    decreases s.len(),
{
    if j < s.len() {
        assert(s.take(j) =~= s.drop_last().take(j));
        lemma_digits_value_prefix(s.drop_last(), j);
        lemma_digits_value_nonneg(s.drop_last());
    } else {
        assert(s.take(j) =~= s);
    }
}

/// The character at `i` of an ASCII string, read in constant time.
fn ascii_char(s: &str, i: usize) -> (c: char)
    requires
        s.is_ascii(),
        i < s@.len(),
    ensures
        c == s@[i as int],
{
    let b = s.get_ascii(i);
    b as char
}

/// The value of the digits `s[from..to]`, provided there is at least one, all are
/// digits and the value is at most `limit`.
fn digits_in(s: &str, from: usize, to: usize, limit: u64) -> (r: Option<u64>)
    requires
        s.is_ascii(),
        from <= to <= s@.len(),
    ensures
        ({
            let t = s@.subrange(from as int, to as int);
            match r {
                Some(v) => t.len() > 0 && all_digits(t) && v == digits_value(t) && v <= limit,
                None => !(t.len() > 0 && all_digits(t) && digits_value(t) <= limit),
            }
        }),
{
    if from == to {
        return None;
    }
    let ghost t = s@.subrange(from as int, to as int);
    let mut acc: u64 = 0;
    let mut i: usize = from;
    while i < to
        invariant
            s.is_ascii(),
            from <= i <= to <= s@.len(),
            t == s@.subrange(from as int, to as int),
            all_digits(t.take(i - from)),
            acc as int == digits_value(t.take(i - from)),
            acc <= limit,
        decreases to - i,
    {
        let c = ascii_char(s, i);
        let ghost k = i - from;
        assert(t[k] == c);
        assert(t.take(k + 1).drop_last() =~= t.take(k));
        assert(t.take(k + 1).last() == c);
        if !('0' <= c && c <= '9') {
            assert(!all_digits(t));
            return None;
        }
        let d = (c as u32 - '0' as u32) as u64;
        assert(all_digits(t.take(k + 1)));
        assert(digits_value(t.take(k + 1)) == acc * 10 + d);
        if d > limit || acc > (limit - d) / 10 {
            proof {
                assert(acc * 10 + d > limit) by (nonlinear_arith)
                    requires
                        d > limit || acc > (limit - d) / 10,
                        d <= 9,
                ;
                if all_digits(t) {
                    lemma_digits_value_prefix(t, k + 1);
                }
            }
            return None;
        }
        assert(acc * 10 + d <= limit) by (nonlinear_arith)
            requires
                d <= limit,
                acc <= (limit - d) / 10,
        ;
        acc = acc * 10 + d;
        i += 1;
    }
    assert(t.take(to - from) =~= t);
    Some(acc)
}

/// `s[from..to]` read as a `usize`, as `usize_text` says.
fn usize_in(s: &str, from: usize, to: usize) -> (r: Option<usize>)
    requires
        s.is_ascii(),
        from <= to <= s@.len(),
    ensures
        r == usize_text(s@.subrange(from as int, to as int)),
{
    let ghost t = s@.subrange(from as int, to as int);
    let mut start = from;
    if from < to && ascii_char(s, from) == '+' {
        start = from + 1;
        assert(t.drop_first() =~= s@.subrange(start as int, to as int));
    } else {
        assert(t =~= s@.subrange(start as int, to as int));
    }
    match digits_in(s, start, to, usize::MAX as u64) {
        Some(v) => Some(v as usize),
        None => None,
    }
}

/// `s[from..to]` read as an `i32`, as `i32_text` says.
fn i32_in(s: &str, from: usize, to: usize) -> (r: Option<i32>)
    requires
        s.is_ascii(),
        from <= to <= s@.len(),
    ensures
        r == i32_text(s@.subrange(from as int, to as int)),
{
    let ghost t = s@.subrange(from as int, to as int);
    if from < to && ascii_char(s, from) == '-' {
        assert(t.drop_first() =~= s@.subrange(from + 1, to as int));
        match digits_in(s, from + 1, to, 2147483648) {
            Some(v) => Some((0 - (v as i64)) as i32),
            None => None,
        }
    } else {
        let mut start = from;
        if from < to && ascii_char(s, from) == '+' {
            start = from + 1;
            assert(t.drop_first() =~= s@.subrange(start as int, to as int));
        } else {
            assert(t =~= s@.subrange(start as int, to as int));
        }
        match digits_in(s, start, to, 2147483647) {
            Some(v) => Some(v as i32),
            None => None,
        }
    }
}

/// A frame that a client sends, as the codec reads it.
pub enum ClientMessage {
    /// `PLAYER:<id>`: take part as the entity `player_id`.
    Join { player_id: usize },
    /// `UPDATE:<x>,<y>`: move the sender's entity to `(x, y)`.
    Update { x: i32, y: i32 },
    /// Any other text, kept as it came.
    Unrecognized { raw: String },
}

/// A frame with a known tag whose payload does not parse.
#[derive(Clone, Copy, Debug, PartialEq, Eq, Structural)]
pub enum DecodeError {
    BadJoin,
    BadUpdate,
}

pub open spec fn join_tag() -> Seq<char> {
    seq!['P', 'L', 'A', 'Y', 'E', 'R', ':']
}

pub open spec fn update_tag() -> Seq<char> {
    seq!['U', 'P', 'D', 'A', 'T', 'E', ':']
}

pub open spec fn has_tag(s: Seq<char>, tag: Seq<char>) -> bool {
    tag.len() <= s.len() && s.take(tag.len() as int) == tag
}

/// `c` is the position of the only comma in `s`.
pub open spec fn sole_comma_at(s: Seq<char>, c: int) -> bool {
    &&& 0 <= c < s.len()
    &&& s[c] == ','
    &&& forall|i: int| 0 <= i < s.len() && i != c ==> #[trigger] s[i] != ','
}

/// The payload of an update, `<x>,<y>`: exactly two comma-separated signed integers.
pub open spec fn update_text(s: Seq<char>) -> Option<(i32, i32)> {
    if exists|c: int| sole_comma_at(s, c) {
        let c = choose|c: int| sole_comma_at(s, c);
        match (i32_text(s.take(c)), i32_text(s.skip(c + 1))) {
            (Some(x), Some(y)) => Some((x, y)),
            _ => None,
        }
    } else {
        None
    }
}

/// What decoding the frame `s` gives.
pub open spec fn decodes_to(s: Seq<char>, r: Result<ClientMessage, DecodeError>) -> bool {
    if has_tag(s, join_tag()) {
        match usize_text(s.skip(7)) {
            Some(id) => r == Ok::<ClientMessage, DecodeError>(ClientMessage::Join { player_id: id }),
            None => r == Err::<ClientMessage, DecodeError>(DecodeError::BadJoin),
        }
    } else if has_tag(s, update_tag()) {
        match update_text(s.skip(7)) {
            Some((x, y)) => r == Ok::<ClientMessage, DecodeError>(ClientMessage::Update { x, y }),
            None => r == Err::<ClientMessage, DecodeError>(DecodeError::BadUpdate),
        }
    } else {
        match r {
            Ok(ClientMessage::Unrecognized { raw }) => raw@ == s,
            _ => false,
        }
    }
}

/// A character that is no ASCII character spoils any number it stands in.
proof fn lemma_wide_char_not_number(s: Seq<char>, j: int)
    requires
        0 <= j < s.len(),
        !('\0' <= s[j] <= '\u{7f}'),
    ensures
        unsigned_value(s) is None,
        signed_value(s) is None,
{
    if s.len() > 0 && (s[0] == '+' || s[0] == '-') {
        assert(!is_digit(s.drop_first()[j - 1]));
    } else {
        assert(!is_digit(s[j]));
    }
}

/// Whether `s` starts with `tag`.
fn starts_with_tag(s: &str, s_len: usize, tag: &str) -> (r: bool)
    requires
        s_len == s@.len(),
    ensures
        r == has_tag(s@, tag@),
{
    let n = tag.unicode_len();
    if n > s_len {
        return false;
    }
    let mut i: usize = 0;
    while i < n
        invariant
            n == tag@.len(),
            n <= s_len == s@.len(),
            i <= n,
            forall|k: int| 0 <= k < i ==> s@[k] == tag@[k],
        decreases n - i,
    {
        if s.get_char(i) != tag.get_char(i) {
            assert(s@.take(n as int)[i as int] != tag@[i as int]);
            return false;
        }
        i += 1;
    }
    assert(s@.take(n as int) =~= tag@);
    true
}

/// The payload after `UPDATE:` in `frame`, read as `update_text` says.
fn update_in(frame: &str, len: usize) -> (r: Option<(i32, i32)>)
    requires
        len == frame@.len(),
        has_tag(frame@, update_tag()),
    ensures
        r == update_text(frame@.skip(7)),
{
    let ghost rest = frame@.skip(7);
    if !frame.is_ascii() {
        proof {
            let j = choose|j: int| 0 <= j < frame@.len() && !('\0' <= #[trigger] frame@[j] <= '\u{7f}');
            if j < 7 {
                assert(frame@.take(7)[j] == frame@[j]);
            }
            assert(rest[j - 7] == frame@[j]);
            if exists|c: int| sole_comma_at(rest, c) {
                let c = choose|c: int| sole_comma_at(rest, c);
                if j - 7 < c {
                    assert(rest.take(c)[j - 7] == frame@[j]);
                    lemma_wide_char_not_number(rest.take(c), j - 7);
                } else {
                    assert(j - 7 != c);
                    assert(rest.skip(c + 1)[j - 7 - c - 1] == frame@[j]);
                    lemma_wide_char_not_number(rest.skip(c + 1), j - 7 - c - 1);
                }
            }
        }
        return None;
    }
    let mut comma: usize = len;
    let mut i: usize = 7;
    while i < len
        invariant
            frame.is_ascii(),
            len == frame@.len(),
            rest == frame@.skip(7),
            7 <= i <= len,
            comma <= len,
            comma == len ==> forall|k: int| 7 <= k < i ==> #[trigger] frame@[k] != ',',
            comma < len ==> {
                &&& 7 <= comma < i
                &&& frame@[comma as int] == ','
                &&& forall|k: int| 7 <= k < i && k != comma ==> #[trigger] frame@[k] != ','
            },
        decreases len - i,
    {
        let c = ascii_char(frame, i);
        if c == ',' {
            if comma < len {
                proof {
                    assert forall|c: int| !sole_comma_at(rest, c) by {
                        if sole_comma_at(rest, c) {
                            if c == comma - 7 {
                                assert(rest[i - 7] == ',');
                            } else {
                                assert(rest[comma - 7] == ',');
                            }
                        }
                    }
                }
                return None;
            }
            comma = i;
        }
        i += 1;
    }
    if comma == len {
        proof {
            assert forall|c: int| !sole_comma_at(rest, c) by {
                if sole_comma_at(rest, c) {
                    assert(frame@[c + 7] == ',');
                }
            }
        }
        return None;
    }
    proof {
        assert(sole_comma_at(rest, comma - 7)) by {
            assert forall|k: int| 0 <= k < rest.len() && k != comma - 7 implies #[trigger] rest[k]
                != ',' by {
                assert(rest[k] == frame@[k + 7]);
                assert(frame@[k + 7] != ',');
            }
        }
        let c = choose|c: int| sole_comma_at(rest, c);
        if c != comma - 7 {
            assert(rest[comma - 7] == ',');
        }
        assert(rest.take(c) =~= frame@.subrange(7, comma as int));
        assert(rest.skip(c + 1) =~= frame@.subrange(comma + 1, len as int));
    }
    let x = i32_in(frame, 7, comma);
    let y = i32_in(frame, comma + 1, len);
    match (x, y) {
        (Some(x), Some(y)) => Some((x, y)),
        _ => None,
    }
}

/// Reads one client frame: `PLAYER:<id>` joins, `UPDATE:<x>,<y>` moves, anything
/// else is handed back unrecognized. A known tag with a bad payload is an error.
pub fn decode(frame: &str) -> (r: Result<ClientMessage, DecodeError>)
    ensures
        decodes_to(frame@, r),
{
    let len = frame.unicode_len();
    let ascii = frame.is_ascii();
    proof {
        reveal_strlit("PLAYER:");
        reveal_strlit("UPDATE:");
    }
    assert("PLAYER:"@ =~= join_tag());
    assert("UPDATE:"@ =~= update_tag());
    if starts_with_tag(frame, len, "PLAYER:") {
        let ghost rest = frame@.skip(7);
        if !ascii {
            proof {
                let j = choose|j: int| 0 <= j < frame@.len() && !('\0' <= #[trigger] frame@[j] <= '\u{7f}');
                if j < 7 {
                    assert(frame@.take(7)[j] == frame@[j]);
                }
                assert(j >= 7);
                assert(rest[j - 7] == frame@[j]);
                lemma_wide_char_not_number(rest, j - 7);
            }
            return Err(DecodeError::BadJoin);
        }
        assert(rest =~= frame@.subrange(7, len as int));
        match usize_in(frame, 7, len) {
            Some(id) => Ok(ClientMessage::Join { player_id: id }),
            None => Err(DecodeError::BadJoin),
        }
    } else if starts_with_tag(frame, len, "UPDATE:") {
        match update_in(frame, len) {
            Some((x, y)) => Ok(ClientMessage::Update { x, y }),
            None => Err(DecodeError::BadUpdate),
        }
    } else {
        Ok(ClientMessage::Unrecognized { raw: frame.to_string() })
    }
}

#[verifier::external_type_specification]
#[verifier::external_body]
pub struct ExJsonError(serde_json::Error);

/// The JSON text of a map from entity ids to positions.
pub uninterp spec fn players_json(players: Map<usize, (i32, i32)>) -> Seq<char>;

/// Relies on serde_json::to_string: writes the map as a JSON object, one member per
/// entry in key order, so that the text depends on the map alone. Integer keys are
/// written as quoted numbers and the only writer is an in-memory buffer, so on such
/// a map it does not fail.
#[verifier::external_body]
fn players_to_json(players: &BTreeMap<usize, Position>) -> (r: Result<String, serde_json::Error>)
    ensures
        r is Ok,
        r matches Ok(s) ==> s@ == players_json(players@),
{
    serde_json::to_string(players)
}

/// The world could not be written as JSON; the broadcast that needed it is skipped.
#[derive(Clone, Copy, Debug, PartialEq, Eq, Structural)]
pub struct EncodeError;

/// What precedes the JSON of the players in a state frame: `STATE:{"players":`.
pub open spec fn state_head() -> Seq<char> {
    seq!['S', 'T', 'A', 'T', 'E', ':', '{', '"', 'p', 'l', 'a', 'y', 'e', 'r', 's', '"', ':']
}

/// The state frame around the JSON object `json` of the players.
pub open spec fn state_frame_text(json: Seq<char>) -> Seq<char> {
    state_head() + json + seq!['}']
}

/// The players' JSON that a state frame carries, if `s` is one.
pub open spec fn state_payload(s: Seq<char>) -> Option<Seq<char>> {
    if s.len() >= 18 && s.take(17) == state_head() && s.last() == '}' {
        Some(s.subrange(17, s.len() - 1))
    } else {
        None
    }
}

/// Wraps the players' JSON `json` into a state frame.
pub fn frame_state(json: &str) -> (r: String)
    ensures
        r@ == state_frame_text(json@),
{
    proof {
        reveal_strlit("STATE:{\"players\":");
        reveal_strlit("}");
    }
    let mut out = "STATE:{\"players\":".to_string();
    out.append(json);
    out.append("}");
    assert(out@ =~= state_frame_text(json@));
    out
}

/// The frame that announces `state` to every session.
pub fn encode_state(state: &GameState) -> (r: Result<String, EncodeError>)
    ensures
        r is Ok,
        r matches Ok(s) ==> s@ == state_frame_text(players_json(state@)),
{
    match players_to_json(state.players()) {
        Ok(json) => Ok(frame_state(&json)),
        Err(_) => Err(EncodeError),
    }
}

/// The players' JSON inside a state frame, or `None` when `frame` is no state frame.
pub fn state_json(frame: &str) -> (r: Option<String>)
    ensures
        match state_payload(frame@) {
            Some(j) => r matches Some(t) && t@ == j,
            None => r is None,
        },
{
    let len = frame.unicode_len();
    proof {
        reveal_strlit("STATE:{\"players\":");
    }
    assert("STATE:{\"players\":"@ =~= state_head());
    if len < 18 || !starts_with_tag(frame, len, "STATE:{\"players\":") || frame.get_char(len - 1)
        != '}' {
        return None;
    }
    let body = frame.substring_char(17, len - 1);
    Some(body.to_string())
}

/// The reply to a frame that the codec does not recognise: `Echo: ` and the frame.
pub open spec fn echo_text(raw: Seq<char>) -> Seq<char> {
    seq!['E', 'c', 'h', 'o', ':', ' '] + raw
}

/// Builds the echo of an unrecognized frame.
pub fn echo(raw: &str) -> (r: String)
    ensures
        r@ == echo_text(raw@),
{
    proof {
        reveal_strlit("Echo: ");
    }
    let mut out = "Echo: ".to_string();
    out.append(raw);
    assert(out@ =~= echo_text(raw@));
    out
}

/// Unwrapping a state frame gives back exactly the JSON that was wrapped.
pub proof fn lemma_state_frame_round_trip(json: Seq<char>)
    ensures
        state_payload(state_frame_text(json)) == Some(json),
{
    let s = state_frame_text(json);
    assert(s.take(17) =~= state_head());
    assert(s.subrange(17, s.len() - 1) =~= json);
}

} // verus!
