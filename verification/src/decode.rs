//! Decoding of inbound payloads: physical key events, control packets, and
//! the key index carried by a control topic.

use vstd::prelude::*;

use crate::action::ControlAction;
use crate::action::ControlPacket;

verus! {

/// A decoded physical key event: which key, and whether it went down or up.
#[derive(Clone, Copy, Debug, PartialEq, Eq, Structural)]
pub enum KeyEvent {
    Pressed(u8),
    Released(u8),
}

/// An ASCII decimal digit.
pub open spec fn is_digit(b: u8) -> bool {
    ('0' as u8) <= b && b <= ('9' as u8)
}

/// The number written by a run of ASCII digits, most significant first.
pub open spec fn digits_val(s: Seq<u8>) -> int
    decreases s.len(),
{
    if s.len() == 0 {
        0
    } else {
        digits_val(s.drop_last()) * 10 + (s.last() - ('0' as u8))
    }
}

/// `d` splits a decimal number body into its integer digits and an optional
/// fraction: digits up to `d`, then either the end or a dot followed by
/// digits, with at least one character of substance.
pub open spec fn body_split_at(s: Seq<u8>, d: int) -> bool {
    &&& 0 <= d <= s.len()
    &&& s.len() > 0
    &&& forall|j: int| 0 <= j < d ==> is_digit(#[trigger] s[j])
    &&& (d == s.len() || s[d] == ('.' as u8))
    &&& forall|j: int| d < j < s.len() ==> is_digit(#[trigger] s[j])
    &&& (d > 0 || s.len() >= 2)
}

/// A well-formed decimal number body: some split position exists.
pub open spec fn valid_body(s: Seq<u8>) -> bool {
    exists|d: int| body_split_at(s, d)
}

/// The integer part of a well-formed number body, truncated toward zero.
pub open spec fn body_value(s: Seq<u8>) -> int {
    digits_val(s.take(choose|d: int| body_split_at(s, d)))
}

/// A nonnegative value narrowed into a byte, saturating at 255.
pub open spec fn clamp_255(v: int) -> u8 {
    if v > 255 {
        255u8
    } else {
        v as u8
    }
}

/// What a physical-event payload decodes to: an optional sign, then a
/// decimal number; a leading minus selects a release, anything else a
/// press; the key index is the number's integer part, saturated into a
/// byte.  Anything malformed decodes to nothing.
pub open spec fn spec_decode_key_event(s: Seq<u8>) -> Option<KeyEvent> {
    let negative = s.len() > 0 && s[0] == ('-' as u8);
    let body = if s.len() > 0 && (s[0] == ('-' as u8) || s[0] == ('+' as u8)) {
        s.skip(1)
    } else {
        s
    };
    if valid_body(body) {
        let idx = clamp_255(body_value(body));
        if negative {
            Some(KeyEvent::Released(idx))
        } else {
            Some(KeyEvent::Pressed(idx))
        }
    } else {
        None
    }
}

/// A number body splits at one position only.
proof fn lemma_body_split_unique(s: Seq<u8>, d1: int, d2: int)
    requires
        body_split_at(s, d1),
        body_split_at(s, d2),
    ensures
        d1 == d2,
{
    if d1 < d2 {
        assert(is_digit(s[d1]));
        assert(d1 < s.len());
        assert(s[d1] == ('.' as u8));
    } else if d2 < d1 {
        assert(is_digit(s[d2]));
        assert(d2 < s.len());
        assert(s[d2] == ('.' as u8));
    }
}

/// Decodes a physical-event payload: a UTF-8 ASCII decimal number whose
/// sign selects press or release and whose integer part, saturated into a
/// byte, is the key index.  Returns nothing on any malformed payload.
pub fn decode_key_event(payload: &[u8]) -> (r: Option<KeyEvent>)
    ensures
        r == spec_decode_key_event(payload@),
{
    let n = payload.len();
    if n == 0 {
        return None;
    }
    let negative = payload[0] == ('-' as u8);
    let start: usize = if payload[0] == ('-' as u8) || payload[0] == ('+' as u8) {
        1
    } else {
        0
    };
    let ghost body = if start == 1 {
        payload@.skip(1)
    } else {
        payload@
    };
    proof {
        assert(body =~= payload@.skip(start as int));
    }
    if start == n {
        // a bare sign has no digits at all
        proof {
            assert(forall|d: int| !body_split_at(body, d));
        }
        return None;
    }
    let mut i: usize = start;
    let mut val: u32 = 0;
    while i < n && payload[i] >= ('0' as u8) && payload[i] <= ('9' as u8)
        invariant
            start <= i <= n,
            n == payload@.len(),
            body == payload@.skip(start as int),
            forall|j: int| 0 <= j < i - start ==> is_digit(#[trigger] body[j]),
            digits_val(body.take(i - start)) <= 255 ==> val == digits_val(body.take(i - start)),
            digits_val(body.take(i - start)) > 255 ==> val > 255,
            val < 10000,
        decreases n - i,
    {
        let d = payload[i] - ('0' as u8);
        proof {
            assert(body.take(i - start + 1).drop_last() =~= body.take(i - start));
            assert(body.take(i - start + 1).last() == body[i - start]);
            assert(body[i - start] == payload@[i as int]);
        }
        if val < 1000 {
            val = val * 10 + (d as u32);
        }
        i += 1;
    }
    let ghost d_int = i - start;
    if i == n {
        // digits all the way to the end: the body is a plain integer
        proof {
            assert(body_split_at(body, d_int as int));
            let dc = choose|d: int| body_split_at(body, d);
            lemma_body_split_unique(body, dc, d_int as int);
            assert(body.take(d_int as int) =~= body);
        }
        let idx = if val > 255 {
            255u8
        } else {
            val as u8
        };
        if negative {
            return Some(KeyEvent::Released(idx));
        } else {
            return Some(KeyEvent::Pressed(idx));
        }
    }
    // payload[i] is the first non-digit of the body
    if payload[i] != ('.' as u8) {
        proof {
            assert forall|d: int| !body_split_at(body, d) by {
                if body_split_at(body, d) {
                    if d < d_int as int {
                        assert(is_digit(body[d]));
                    } else if d > d_int as int {
                        assert(is_digit(body[d_int as int]));
                    }
                }
            }
        }
        return None;
    }
    if i == start && i + 1 == n {
        // a lone dot carries no digits
        proof {
            assert forall|d: int| !body_split_at(body, d) by {
                if body_split_at(body, d) {
                    assert(body.len() == 1);
                }
            }
        }
        return None;
    }
    let mut j: usize = i + 1;
    while j < n && payload[j] >= ('0' as u8) && payload[j] <= ('9' as u8)
        invariant
            start <= i < n,
            i + 1 <= j <= n,
            n == payload@.len(),
            body == payload@.skip(start as int),
            body[i - start] == ('.' as u8),
            forall|k: int| 0 <= k < i - start ==> is_digit(#[trigger] body[k]),
            forall|k: int| i - start < k < j - start ==> is_digit(#[trigger] body[k]),
            digits_val(body.take(i - start)) <= 255 ==> val == digits_val(body.take(i - start)),
            digits_val(body.take(i - start)) > 255 ==> val > 255,
        decreases n - j,
    {
        proof {
            assert(body[j - start] == payload@[j as int]);
        }
        j += 1;
    }
    if j < n {
        // a non-digit inside the fraction
        proof {
            assert(!is_digit(body[j - start]));
            assert(body[j - start] == payload@[j as int]);
            assert forall|d: int| !body_split_at(body, d) by {
                if body_split_at(body, d) {
                    if d < d_int as int {
                        assert(is_digit(body[d]));
                    } else if d > d_int as int {
                        assert(is_digit(body[d_int as int]));
                    } else {
                        assert(is_digit(body[j - start]));
                    }
                }
            }
        }
        return None;
    }
    proof {
        assert(body_split_at(body, d_int as int));
        let dc = choose|d: int| body_split_at(body, d);
        lemma_body_split_unique(body, dc, d_int as int);
    }
    let idx = if val > 255 {
        255u8
    } else {
        val as u8
    };
    if negative {
        Some(KeyEvent::Released(idx))
    } else {
        Some(KeyEvent::Pressed(idx))
    }
}

/// `i` is where the last path segment of `s` starts: just after the last
/// slash, or at the very beginning when there is none.
pub open spec fn seg_start(s: Seq<u8>, i: int) -> bool {
    &&& 0 <= i <= s.len()
    &&& (i == 0 || s[i - 1] == ('/' as u8))
    &&& forall|j: int| i <= j < s.len() ==> (#[trigger] s[j]) != ('/' as u8)
}

/// Every byte of the run is an ASCII digit.
pub open spec fn all_digits(s: Seq<u8>) -> bool {
    forall|j: int| 0 <= j < s.len() ==> is_digit(#[trigger] s[j])
}

/// What a run of bytes parses to as a `u8`: an optional plus sign, then at
/// least one digit, with a value that fits in a byte.
pub open spec fn spec_parse_u8(seg: Seq<u8>) -> Option<u8> {
    let ds = if seg.len() > 0 && seg[0] == ('+' as u8) {
        seg.skip(1)
    } else {
        seg
    };
    if ds.len() > 0 && all_digits(ds) && digits_val(ds) <= 255 {
        Some(digits_val(ds) as u8)
    } else {
        None
    }
}

/// The key index named by a control topic: its last path segment, parsed
/// as an unsigned byte.  A missing or non-numeric segment yields nothing.
pub open spec fn spec_key_index_from_topic(s: Seq<u8>) -> Option<u8> {
    spec_parse_u8(s.skip(choose|i: int| seg_start(s, i)))
}

/// A topic has one last segment only.
proof fn lemma_seg_start_unique(s: Seq<u8>, i1: int, i2: int)
    requires
        seg_start(s, i1),
        seg_start(s, i2),
    ensures
        i1 == i2,
{
    if i1 < i2 {
        assert(s[i2 - 1] != ('/' as u8));
    } else if i2 < i1 {
        assert(s[i1 - 1] != ('/' as u8));
    }
}

/// Finds the key index a control topic addresses: the topic's last path
/// segment parsed as an unsigned byte, or nothing when the segment is
/// empty, contains a non-digit, or names a value over 255.
#[verifier::loop_isolation(false)]
#[verifier::rlimit(50)]
pub fn key_index_from_topic(topic: &[u8]) -> (r: Option<u8>)
    ensures
        r == spec_key_index_from_topic(topic@),
{
    let n = topic.len();
    let mut start: usize = 0;
    let mut j: usize = 0;
    while j < n
        invariant
            0 <= start <= j <= n,
            n == topic@.len(),
            start == 0 || topic@[start - 1] == ('/' as u8),
            forall|k: int| start <= k < j ==> (#[trigger] topic@[k]) != ('/' as u8),
        decreases n - j,
    {
        if topic[j] == ('/' as u8) {
            start = j + 1;
        }
        j += 1;
    }
    proof {
        assert(seg_start(topic@, start as int));
        let sc = choose|i: int| seg_start(topic@, i);
        lemma_seg_start_unique(topic@, sc, start as int);
    }
    let ghost seg = topic@.skip(start as int);
    // an optional plus sign before the digits
    let dstart: usize = if start < n && topic[start] == ('+' as u8) {
        start + 1
    } else {
        start
    };
    let ghost ds = topic@.skip(dstart as int);
    proof {
        assert(seg.len() == n - start);
        if start < n {
            assert(seg[0] == topic@[start as int]);
        }
        if dstart == start {
            assert(ds =~= seg);
        } else {
            assert(ds =~= seg.skip(1));
        }
    }
    if dstart == n {
        return None;
    }
    let mut i: usize = dstart;
    let mut val: u32 = 0;
    while i < n
        invariant
            dstart <= i <= n,
            n == topic@.len(),
            ds == topic@.skip(dstart as int),
            forall|k: int| 0 <= k < i - dstart ==> is_digit(#[trigger] ds[k]),
            digits_val(ds.take(i - dstart)) <= 255 ==> val == digits_val(ds.take(i - dstart)),
            digits_val(ds.take(i - dstart)) > 255 ==> val > 255,
            val < 10000,
        decreases n - i,
    {
        if topic[i] < ('0' as u8) || topic[i] > ('9' as u8) {
            proof {
                assert(!is_digit(ds[i - dstart]));
                assert(!all_digits(ds));
            }
            return None;
        }
        let d = topic[i] - ('0' as u8);
        proof {
            assert(ds.take(i - dstart + 1).drop_last() =~= ds.take(i - dstart));
            assert(ds.take(i - dstart + 1).last() == ds[i - dstart]);
            assert(ds[i - dstart] == topic@[i as int]);
        }
        if val < 1000 {
            val = val * 10 + (d as u32);
        }
        i += 1;
    }
    proof {
        assert(ds.take(n - dstart) =~= ds);
        assert(all_digits(ds));
    }
    if val > 255 {
        return None;
    }
    Some(val as u8)
}

/// JSON whitespace: space, tab, line feed, carriage return.
pub open spec fn is_ws(b: u8) -> bool {
    b == (' ' as u8) || b == ('\t' as u8) || b == ('\n' as u8) || b == ('\r' as u8)
}

/// The first position at or after `i` holding no whitespace (or the end).
pub open spec fn spec_skip_ws(s: Seq<u8>, i: int) -> int
    decreases s.len() - i,
{
    if 0 <= i < s.len() && is_ws(s[i]) {
        spec_skip_ws(s, i + 1)
    } else {
        i
    }
}

/// Skipping whitespace never moves backwards nor past the end.
pub proof fn lemma_skip_ws_bounds(s: Seq<u8>, i: int)
    requires
        0 <= i <= s.len(),
    ensures
        i <= spec_skip_ws(s, i) <= s.len(),
    decreases s.len() - i,
{
    if i < s.len() && is_ws(s[i]) {
        lemma_skip_ws_bounds(s, i + 1);
    }
}

/// The literal bytes of the quoted `actions` object key.
pub open spec fn lit_actions_key() -> Seq<u8> {
    seq![
        ('"' as u8),
        ('a' as u8),
        ('c' as u8),
        ('t' as u8),
        ('i' as u8),
        ('o' as u8),
        ('n' as u8),
        ('s' as u8),
        ('"' as u8),
    ]
}

/// The literal bytes of the quoted `ToggleBlinking` tag.
pub open spec fn lit_tag_toggle() -> Seq<u8> {
    seq![
        ('"' as u8),
        ('T' as u8),
        ('o' as u8),
        ('g' as u8),
        ('g' as u8),
        ('l' as u8),
        ('e' as u8),
        ('B' as u8),
        ('l' as u8),
        ('i' as u8),
        ('n' as u8),
        ('k' as u8),
        ('i' as u8),
        ('n' as u8),
        ('g' as u8),
        ('"' as u8),
    ]
}

/// The literal bytes of the quoted `ToggleBlinkingAlternativeColor` tag.
pub open spec fn lit_tag_toggle_alt() -> Seq<u8> {
    seq![
        ('"' as u8),
        ('T' as u8),
        ('o' as u8),
        ('g' as u8),
        ('g' as u8),
        ('l' as u8),
        ('e' as u8),
        ('B' as u8),
        ('l' as u8),
        ('i' as u8),
        ('n' as u8),
        ('k' as u8),
        ('i' as u8),
        ('n' as u8),
        ('g' as u8),
        ('A' as u8),
        ('l' as u8),
        ('t' as u8),
        ('e' as u8),
        ('r' as u8),
        ('n' as u8),
        ('a' as u8),
        ('t' as u8),
        ('i' as u8),
        ('v' as u8),
        ('e' as u8),
        ('C' as u8),
        ('o' as u8),
        ('l' as u8),
        ('o' as u8),
        ('r' as u8),
        ('"' as u8),
    ]
}

/// The bytes `lit` stand verbatim at position `i` of `s`.
pub open spec fn match_at(s: Seq<u8>, i: int, lit: Seq<u8>) -> bool {
    &&& 0 <= i
    &&& i + lit.len() <= s.len()
    &&& s.subrange(i, i + lit.len()) == lit
}

/// One control-action tag at position `i`: the longer tag is tried first,
/// and the position just past the tag is returned with it.
pub open spec fn spec_parse_tag(s: Seq<u8>, i: int) -> Option<(ControlAction, int)> {
    if match_at(s, i, lit_tag_toggle_alt()) {
        Some((ControlAction::ToggleBlinkingAlternativeColor, i + lit_tag_toggle_alt().len()))
    } else if match_at(s, i, lit_tag_toggle()) {
        Some((ControlAction::ToggleBlinking, i + lit_tag_toggle().len()))
    } else {
        None
    }
}

/// A non-empty, comma-separated run of tags starting at `i` and closed by
/// `]`: the tags in order, and the position just past the bracket.
pub open spec fn spec_parse_tags(s: Seq<u8>, i: int) -> Option<(Seq<ControlAction>, int)>
    decreases s.len() - i,
{
    match spec_parse_tag(s, i) {
        None => None,
        Some((tag, j0)) => {
            let j = spec_skip_ws(s, j0);
            proof {
                lemma_skip_ws_bounds(s, j0);
            }
            if j < s.len() && s[j] == (',' as u8) {
                let k = spec_skip_ws(s, j + 1);
                proof {
                    lemma_skip_ws_bounds(s, j + 1);
                }
                match spec_parse_tags(s, k) {
                    None => None,
                    Some((rest, end)) => Some((seq![tag] + rest, end)),
                }
            } else if j < s.len() && s[j] == (']' as u8) {
                Some((seq![tag], j + 1))
            } else {
                None
            }
        },
    }
}

/// Only trailing whitespace may follow position `i`, after a closing brace.
pub open spec fn spec_finish(s: Seq<u8>, i: int) -> bool {
    let j = spec_skip_ws(s, i);
    j < s.len() && s[j] == ('}' as u8) && spec_skip_ws(s, j + 1) == s.len()
}

/// What a control payload decodes to: a JSON object holding exactly the
/// `actions` key, whose value is an array of control-action tags.  The
/// tags are returned in order; anything else decodes to nothing.
pub open spec fn spec_decode_control(s: Seq<u8>) -> Option<Seq<ControlAction>> {
    let i0 = spec_skip_ws(s, 0);
    if i0 < s.len() && s[i0] == ('{' as u8) {
        let i1 = spec_skip_ws(s, i0 + 1);
        if match_at(s, i1, lit_actions_key()) {
            let i2 = spec_skip_ws(s, i1 + lit_actions_key().len());
            if i2 < s.len() && s[i2] == (':' as u8) {
                let i3 = spec_skip_ws(s, i2 + 1);
                if i3 < s.len() && s[i3] == ('[' as u8) {
                    let i4 = spec_skip_ws(s, i3 + 1);
                    if i4 < s.len() && s[i4] == (']' as u8) {
                        if spec_finish(s, i4 + 1) {
                            Some(Seq::empty())
                        } else {
                            None
                        }
                    } else {
                        match spec_parse_tags(s, i4) {
                            None => None,
                            Some((tags, end)) => if spec_finish(s, end) {
                                Some(tags)
                            } else {
                                None
                            },
                        }
                    }
                } else {
                    None
                }
            } else {
                None
            }
        } else {
            None
        }
    } else {
        None
    }
}

/// Advances over whitespace, returning the first interesting position.
fn skip_ws_at(s: &[u8], from: usize) -> (r: usize)
    requires
        from <= s@.len(),
    ensures
        r as int == spec_skip_ws(s@, from as int),
        from <= r <= s@.len(),
{
    let mut i = from;
    while i < s.len() && (s[i] == (' ' as u8) || s[i] == ('\t' as u8) || s[i] == ('\n' as u8)
        || s[i] == ('\r' as u8))
        invariant
            from <= i <= s@.len(),
            spec_skip_ws(s@, from as int) == spec_skip_ws(s@, i as int),
        decreases s@.len() - i,
    {
        i += 1;
    }
    i
}

/// Compares the bytes at position `i` against a literal.
fn match_lit(s: &[u8], i: usize, lit: &Vec<u8>) -> (r: bool)
    ensures
        r == match_at(s@, i as int, lit@),
{
    let n = s.len();
    if lit.len() > n || i > n - lit.len() {
        return false;
    }
    let mut j: usize = 0;
    while j < lit.len()
        invariant
            0 <= j <= lit@.len(),
            n == s@.len(),
            i + lit@.len() <= n,
            forall|k: int| 0 <= k < j ==> s@[i + k] == lit@[k],
        decreases lit@.len() - j,
    {
        if s[i + j] != lit[j] {
            proof {
                let sub = s@.subrange(i as int, i as int + lit@.len());
                assert(sub[j as int] == s@[i + j]);
            }
            return false;
        }
        j += 1;
    }
    proof {
        assert(s@.subrange(i as int, i as int + lit@.len()) =~= lit@);
    }
    true
}

/// Builds the quoted `actions` key as bytes.
fn lit_vec_actions_key() -> (v: Vec<u8>)
    ensures
        v@ == lit_actions_key(),
{
    let mut v: Vec<u8> = Vec::new();
    v.push('"' as u8);
    v.push('a' as u8);
    v.push('c' as u8);
    v.push('t' as u8);
    v.push('i' as u8);
    v.push('o' as u8);
    v.push('n' as u8);
    v.push('s' as u8);
    v.push('"' as u8);
    proof {
        assert(v@ =~= lit_actions_key());
    }
    v
}

/// Builds the quoted `ToggleBlinking` tag as bytes.
fn lit_vec_tag_toggle() -> (v: Vec<u8>)
    ensures
        v@ == lit_tag_toggle(),
{
    let mut v: Vec<u8> = Vec::new();
    v.push('"' as u8);
    v.push('T' as u8);
    v.push('o' as u8);
    v.push('g' as u8);
    v.push('g' as u8);
    v.push('l' as u8);
    v.push('e' as u8);
    v.push('B' as u8);
    v.push('l' as u8);
    v.push('i' as u8);
    v.push('n' as u8);
    v.push('k' as u8);
    v.push('i' as u8);
    v.push('n' as u8);
    v.push('g' as u8);
    v.push('"' as u8);
    proof {
        assert(v@ =~= lit_tag_toggle());
    }
    v
}

/// Builds the quoted `ToggleBlinkingAlternativeColor` tag as bytes.
fn lit_vec_tag_toggle_alt() -> (v: Vec<u8>)
    ensures
        v@ == lit_tag_toggle_alt(),
{
    let mut v: Vec<u8> = Vec::new();
    v.push('"' as u8);
    v.push('T' as u8);
    v.push('o' as u8);
    v.push('g' as u8);
    v.push('g' as u8);
    v.push('l' as u8);
    v.push('e' as u8);
    v.push('B' as u8);
    v.push('l' as u8);
    v.push('i' as u8);
    v.push('n' as u8);
    v.push('k' as u8);
    v.push('i' as u8);
    v.push('n' as u8);
    v.push('g' as u8);
    v.push('A' as u8);
    v.push('l' as u8);
    v.push('t' as u8);
    v.push('e' as u8);
    v.push('r' as u8);
    v.push('n' as u8);
    v.push('a' as u8);
    v.push('t' as u8);
    v.push('i' as u8);
    v.push('v' as u8);
    v.push('e' as u8);
    v.push('C' as u8);
    v.push('o' as u8);
    v.push('l' as u8);
    v.push('o' as u8);
    v.push('r' as u8);
    v.push('"' as u8);
    proof {
        assert(v@ =~= lit_tag_toggle_alt());
    }
    v
}

/// Parses the tag run of a control payload, pushing each decoded action.
fn parse_tags_at(
    payload: &[u8],
    i: usize,
    tag_alt: &Vec<u8>,
    tag_tb: &Vec<u8>,
    actions: &mut Vec<ControlAction>,
) -> (r: Option<usize>)
    requires
        i <= payload@.len(),
        tag_alt@ == lit_tag_toggle_alt(),
        tag_tb@ == lit_tag_toggle(),
    ensures
        ({
            let sp = spec_parse_tags(payload@, i as int);
            match (r, sp) {
                (Some(end), Some(pair)) => end as int == pair.1 && end <= payload@.len()
                    && final(actions)@ == old(actions)@ + pair.0,
                (None, None) => true,
                _ => false,
            }
        }),
    decreases payload@.len() - i,
{
    let n = payload.len();
    let (tag, next): (ControlAction, usize) = if match_lit(payload, i, tag_alt) {
        (ControlAction::ToggleBlinkingAlternativeColor, i + tag_alt.len())
    } else if match_lit(payload, i, tag_tb) {
        (ControlAction::ToggleBlinking, i + tag_tb.len())
    } else {
        return None;
    };
    actions.push(tag);
    let ghost pushed = actions@;
    let j = skip_ws_at(payload, next);
    if j < n && payload[j] == (',' as u8) {
        let k = skip_ws_at(payload, j + 1);
        let res = parse_tags_at(payload, k, tag_alt, tag_tb, actions);
        proof {
            if let (Some(end), Some(pair)) = (res, spec_parse_tags(payload@, k as int)) {
                assert(pushed + pair.0 =~= old(actions)@ + (seq![tag] + pair.0));
            }
        }
        res
    } else if j < n && payload[j] == (']' as u8) {
        proof {
            assert(pushed =~= old(actions)@ + seq![tag]);
        }
        Some(j + 1)
    } else {
        None
    }
}

/// Decodes a control payload: a JSON object of the exact shape
/// `{"actions": [tag, ...]}` where each tag is `"ToggleBlinking"` or
/// `"ToggleBlinkingAlternativeColor"`, with arbitrary whitespace between
/// tokens.  Anything else — other keys, other values, trailing input —
/// yields nothing.
pub fn decode_control_packet(payload: &[u8]) -> (r: Option<ControlPacket>)
    ensures
        ({
            let sp = spec_decode_control(payload@);
            match (r, sp) {
                (Some(p), Some(tags)) => p.actions@ == tags,
                (None, None) => true,
                _ => false,
            }
        }),
{
    let n = payload.len();
    let i0 = skip_ws_at(payload, 0);
    if !(i0 < n && payload[i0] == ('{' as u8)) {
        return None;
    }
    let i1 = skip_ws_at(payload, i0 + 1);
    let key = lit_vec_actions_key();
    if !match_lit(payload, i1, &key) {
        return None;
    }
    let i2 = skip_ws_at(payload, i1 + key.len());
    if !(i2 < n && payload[i2] == (':' as u8)) {
        return None;
    }
    let i3 = skip_ws_at(payload, i2 + 1);
    if !(i3 < n && payload[i3] == ('[' as u8)) {
        return None;
    }
    let i4 = skip_ws_at(payload, i3 + 1);
    let mut actions: Vec<ControlAction> = Vec::new();
    let end: usize;
    if i4 < n && payload[i4] == (']' as u8) {
        end = i4 + 1;
    } else {
        let tag_alt = lit_vec_tag_toggle_alt();
        let tag_tb = lit_vec_tag_toggle();
        match parse_tags_at(payload, i4, &tag_alt, &tag_tb, &mut actions) {
            Some(e) => {
                end = e;
            },
            None => {
                return None;
            },
        }
    }
    let j = skip_ws_at(payload, end);
    if j < n && payload[j] == ('}' as u8) {
        let z = skip_ws_at(payload, j + 1);
        if z == n {
            return Some(ControlPacket { actions });
        }
    }
    None
}

} // verus!
