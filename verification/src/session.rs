//! Brain sessions: per-session state and the registry of open sessions.
//!
//! A session is identified by a UUID-v4-shaped id minted from the clock
//! reading at which it was opened.
//!
//! A session has a time-to-live in seconds; `0` disables expiry. Expired
//! sessions are evicted lazily, when a session is opened, attached or
//! looked up: a session is expired when more than `ttl` seconds passed
//! since its last activity. Attaching refreshes the last activity; a
//! plain lookup does not. Closing is idempotent. A session keeps the
//! newest 50 history entries. Times are nanoseconds since the Unix
//! epoch.

use vstd::prelude::*;
use crate::text::{chars_of, chars_eq, owned, concat3, push_char};

verus! {

/// Default time-to-live of a new session, in seconds (30 minutes).
pub const DEFAULT_TTL_SECS: u64 = 1800;

/// Most history entries a session keeps.
pub const DEFAULT_HISTORY_CAP: usize = 50;

/// Nanoseconds per second.
pub open spec fn nanos_per_sec() -> int {
    1_000_000_000
}

/// Errors of session lookups.
#[derive(Debug, Clone, Copy, PartialEq, Eq, Structural)]
pub enum SessionError {
    NotFound,
    Expired,
}

impl SessionError {
    /// The error code: `session_not_found` or `session_expired`.
    pub fn message(&self) -> (r: &'static str)
        ensures
            r@ == match *self {
                SessionError::NotFound => "session_not_found"@,
                SessionError::Expired => "session_expired"@,
            },
    {
        match self {
            SessionError::NotFound => "session_not_found",
            SessionError::Expired => "session_expired",
        }
    }
}

/// One past ask.
#[derive(Debug, Clone)]
pub struct HistoryEntry {
    pub question: String,
    pub answer_summary: String,
    /// Category of the question, as a number.
    pub pattern_id: u8,
    /// When it was asked.
    pub ts: i64,
}

/// Per-session state.
#[derive(Debug)]
pub struct BrainSessionState {
    pub session_id: String,
    pub workspace_id: String,
    pub created_at: i64,
    pub last_activity: i64,
    /// Time-to-live in seconds; `0` disables expiry.
    pub ttl: u64,
    /// The symbol the user is exploring; asks are prefixed with it.
    pub focus_node: Option<String>,
    /// Past asks, oldest first, at most [`DEFAULT_HISTORY_CAP`].
    pub history: Vec<HistoryEntry>,
}

/// The history after appending `e` to `h` and dropping the oldest
/// entries beyond the cap.
pub open spec fn capped_push(h: Seq<HistoryEntry>, e: HistoryEntry) -> Seq<HistoryEntry> {
    let g = h.push(e);
    if g.len() > 50 {
        g.skip(g.len() - 50)
    } else {
        g
    }
}

/// The question as the ask router sees it: prefixed with the focus node
/// as a backtick-quoted token when there is one.
pub open spec fn enriched(focus: Option<Seq<char>>, question: Seq<char>) -> Seq<char> {
    match focus {
        Some(f) => "`"@ + f + "` "@ + question,
        None => question,
    }
}

/// Prefixes `question` with the focus node, when there is one.
pub fn enrich_question(focus: Option<&str>, question: &str) -> (r: String)
    ensures
        r@ == enriched(
            match focus {
                Some(f) => Some(f@),
                None => None,
            },
            question@,
        ),
{
    match focus {
        Some(f) => {
            let fc = chars_of(f);
            let mut m = concat3("`", &fc, "` ");
            m.append(question);
            m
        },
        None => owned(question),
    }
}

impl BrainSessionState {
    /// A fresh state, created and last active at `now`, with no focus
    /// and no history.
    pub fn new(session_id: String, workspace_id: String, ttl: u64, now: i64) -> (r: Self)
        ensures
            r.session_id == session_id,
            r.workspace_id == workspace_id,
            r.created_at == now,
            r.last_activity == now,
            r.ttl == ttl,
            r.focus_node is None,
            r.history@.len() == 0,
    {
        BrainSessionState {
            session_id,
            workspace_id,
            created_at: now,
            last_activity: now,
            ttl,
            focus_node: None,
            history: Vec::new(),
        }
    }

    /// Appends an ask to the history, dropping the oldest entries beyond
    /// the cap.
    pub fn push_history(&mut self, entry: HistoryEntry)
        ensures
            final(self).history@ == capped_push(old(self).history@, entry),
            final(self).session_id == old(self).session_id,
            final(self).workspace_id == old(self).workspace_id,
            final(self).created_at == old(self).created_at,
            final(self).last_activity == old(self).last_activity,
            final(self).ttl == old(self).ttl,
            final(self).focus_node == old(self).focus_node,
    {
        let ghost g = self.history@.push(entry);
        self.history.push(entry);
        while self.history.len() > DEFAULT_HISTORY_CAP
            invariant
                g.len() >= self.history@.len(),
                self.history@ == g.skip(g.len() - self.history@.len()),
                g.len() > 50 ==> self.history@.len() >= 50,
                g.len() <= 50 ==> self.history@ == g,
                self.session_id == old(self).session_id,
                self.workspace_id == old(self).workspace_id,
                self.created_at == old(self).created_at,
                self.last_activity == old(self).last_activity,
                self.ttl == old(self).ttl,
                self.focus_node == old(self).focus_node,
            decreases self.history.len(),
        {
            let ghost before = self.history@;
            self.history.remove(0);
            assert(self.history@ =~= g.skip(g.len() - self.history@.len()));
        }
        proof {
            if g.len() <= 50 {
                assert(g.skip(0) =~= g);
            }
        }
    }
}

impl BrainSessionState {
    /// Marks the session active at `now`.
    pub fn touch(&mut self, now: i64)
        ensures
            final(self).last_activity == now,
            final(self).session_id == old(self).session_id,
            final(self).workspace_id == old(self).workspace_id,
            final(self).created_at == old(self).created_at,
            final(self).ttl == old(self).ttl,
            final(self).focus_node == old(self).focus_node,
            final(self).history@ == old(self).history@,
    {
        self.last_activity = now;
    }

    /// The symbol being explored, if any.
    pub fn focus_node(&self) -> (r: Option<String>)
        ensures
            match (r, self.focus_node) {
                (Some(a), Some(b)) => a@ == b@,
                (None, None) => true,
                _ => false,
            },
    {
        match &self.focus_node {
            Some(f) => Some(owned(f.as_str())),
            None => None,
        }
    }

    /// Sets or clears the symbol being explored.
    pub fn set_focus(&mut self, node: Option<String>)
        ensures
            final(self).focus_node == node,
            final(self).session_id == old(self).session_id,
            final(self).workspace_id == old(self).workspace_id,
            final(self).created_at == old(self).created_at,
            final(self).last_activity == old(self).last_activity,
            final(self).ttl == old(self).ttl,
            final(self).history@ == old(self).history@,
    {
        self.focus_node = node;
    }

    /// Number of asks in the history.
    pub fn history_len(&self) -> (r: usize)
        ensures
            r == self.history@.len(),
    {
        self.history.len()
    }

    /// The question of the oldest ask kept.
    pub fn history_first_question(&self) -> (r: Option<String>)
        ensures
            self.history@.len() == 0 ==> r is None,
            self.history@.len() > 0 ==> (r matches Some(q) && q@ == self.history@[0].question@),
    {
        if self.history.len() == 0 {
            None
        } else {
            Some(owned(self.history[0].question.as_str()))
        }
    }

    /// The question of the newest ask.
    pub fn history_last_question(&self) -> (r: Option<String>)
        ensures
            self.history@.len() == 0 ==> r is None,
            self.history@.len() > 0 ==> (r matches Some(q) && q@ == self.history@.last().question@),
    {
        let n = self.history.len();
        if n == 0 {
            None
        } else {
            Some(owned(self.history[n - 1].question.as_str()))
        }
    }
}

// ---------------------------------------------------------------------------
// Session ids
// ---------------------------------------------------------------------------

/// A splitmix64 step over `x`.
pub open spec fn id_mix(x: u64) -> u64 {
    let c0 = 0x9E37_79B9_7F4A_7C15u64 ^ x;
    let c1 = c0.wrapping_mul(0xBF58_476D_1CE4_E5B9u64);
    let c2 = c1 ^ (c1 >> 31u64);
    let c3 = c2.wrapping_mul(0x94D0_49BB_1331_11EBu64);
    c3 ^ (c3 >> 30u64)
}

/// `x` rotated left by `k` bits, `0 < k < 64`.
pub open spec fn rotl(x: u64, k: u64) -> u64 {
    (x << k) | (x >> (64 - k) as u64)
}

/// The high half of a session id's bits: the clock reading plus the
/// splitmix64 step over the clock mixed with the sequence number.
pub open spec fn id_high(nanos: u64, seq: u64) -> u64 {
    nanos.wrapping_add(id_mix(nanos ^ seq))
}

/// The low half of a session id's bits: the sequence number in the
/// upper seven bytes, a byte of the mix below them.
pub open spec fn id_low(nanos: u64, seq: u64) -> u64 {
    (seq << 8u64) | (id_mix(nanos ^ seq) & 0xFFu64)
}

/// Byte `i` of `x` in big-endian order.
pub open spec fn be_byte(x: u64, i: int) -> u8 {
    (x >> (56 - 8 * i) as u64) as u8
}

/// Byte `i` of `x` in little-endian order.
pub open spec fn le_byte(x: u64, i: int) -> u8 {
    (x >> (8 * i) as u64) as u8
}

/// A lowercase hex digit.
pub open spec fn hex_digit(n: u8) -> char {
    if n < 10 {
        ((n + 48) as u8) as char
    } else {
        ((n + 87) as u8) as char
    }
}

/// A byte as two lowercase hex digits.
pub open spec fn hex2(b: u8) -> Seq<char> {
    seq![hex_digit(b / 16), hex_digit(b % 16)]
}

/// The id minted at `nanos` as the `seq`-th of its registry: the bits of
/// [`id_high`] and [`id_low`] in the canonical 8-4-4-4-12 layout, with the
/// version nibble set to 4 and the variant bits to `10`.
pub open spec fn session_id_text(nanos: u64, seq: u64) -> Seq<char> {
    let h = id_high(nanos, seq);
    let l = id_low(nanos, seq);
    let version = (be_byte(h, 1) & 0x0F) | 0x40;
    let variant = (le_byte(l, 0) & 0x3F) | 0x80;
    hex2(be_byte(h, 0)) + hex2(be_byte(h, 1)) + hex2(be_byte(h, 2)) + hex2(be_byte(h, 3)) + "-"@
        + hex2(be_byte(h, 4)) + hex2(be_byte(h, 5)) + "-"@ + hex2(version) + hex2(be_byte(h, 7))
        + "-"@ + hex2(variant) + hex2(le_byte(l, 1)) + "-"@ + hex2(le_byte(l, 2)) + hex2(
        le_byte(l, 3),
    ) + hex2(le_byte(l, 4)) + hex2(le_byte(l, 5)) + hex2(le_byte(l, 6)) + hex2(le_byte(l, 7))
}

fn hex_char(n: u8) -> (r: char)
    requires
        n < 16,
    ensures
        r == hex_digit(n),
{
    if n < 10 {
        ((n + 48) as u8) as char
    } else {
        ((n + 87) as u8) as char
    }
}

fn push_hex(s: &mut String, b: u8)
    ensures
        final(s)@ == old(s)@ + hex2(b),
{
    push_char(s, hex_char(b / 16));
    push_char(s, hex_char(b % 16));
    assert(final(s)@ =~= old(s)@ + hex2(b));
}

fn id_bits(nanos: u64, seq: u64) -> (r: (u64, u64))
    ensures
        r == (id_high(nanos, seq), id_low(nanos, seq)),
{
    let mut c: u64 = 0x9E37_79B9_7F4A_7C15u64 ^ (nanos ^ seq);
    c = c.wrapping_mul(0xBF58_476D_1CE4_E5B9u64);
    c = c ^ (c >> 31u64);
    c = c.wrapping_mul(0x94D0_49BB_1331_11EBu64);
    c = c ^ (c >> 30u64);
    let high = nanos.wrapping_add(c);
    let low = (seq << 8u64) | (c & 0xFFu64);
    (high, low)
}

/// The session id minted at `nanos` nanoseconds past the Unix epoch as
/// the `seq`-th id of its registry: a UUID-v4-shaped string (36
/// characters, lowercase hex) that mixes the clock with the sequence
/// number and carries the sequence number in its last 14 hex digits, so
/// that ids with different sequence numbers differ.
pub fn generate_session_id(nanos: u64, seq: u64) -> (r: String)
    ensures
        r@ == session_id_text(nanos, seq),
{
    let (h, l) = id_bits(nanos, seq);
    let mut r = String::new();
    push_hex(&mut r, (h >> 56u64) as u8);
    push_hex(&mut r, (h >> 48u64) as u8);
    push_hex(&mut r, (h >> 40u64) as u8);
    push_hex(&mut r, (h >> 32u64) as u8);
    push_char(&mut r, '-');
    push_hex(&mut r, (h >> 24u64) as u8);
    push_hex(&mut r, (h >> 16u64) as u8);
    push_char(&mut r, '-');
    push_hex(&mut r, (((h >> 48u64) as u8) & 0x0F) | 0x40);
    push_hex(&mut r, (h >> 0u64) as u8);
    push_char(&mut r, '-');
    push_hex(&mut r, (((l >> 0u64) as u8) & 0x3F) | 0x80);
    push_hex(&mut r, (l >> 8u64) as u8);
    push_char(&mut r, '-');
    push_hex(&mut r, (l >> 16u64) as u8);
    push_hex(&mut r, (l >> 24u64) as u8);
    push_hex(&mut r, (l >> 32u64) as u8);
    push_hex(&mut r, (l >> 40u64) as u8);
    push_hex(&mut r, (l >> 48u64) as u8);
    push_hex(&mut r, (l >> 56u64) as u8);
    proof {
        reveal_strlit("-");
        assert(be_byte(h, 0) == (h >> 56u64) as u8);
        assert(be_byte(h, 1) == (h >> 48u64) as u8);
        assert(be_byte(h, 7) == (h >> 0u64) as u8);
        assert(le_byte(l, 0) == (l >> 0u64) as u8);
        assert(le_byte(l, 7) == (l >> 56u64) as u8);
        assert(r@ =~= session_id_text(nanos, seq));
    }
    r
}

/// The clock reading a session id is minted from: nanoseconds past the
/// epoch, or 0 before it.
pub open spec fn id_clock(now: i64) -> u64 {
    if now < 0 {
        0
    } else {
        now as u64
    }
}

/// A lowercase hex digit character.
pub open spec fn is_hex_char(c: char) -> bool {
    ('0' <= c <= '9') || ('a' <= c <= 'f')
}

/// The canonical UUID v4 layout: 36 characters, hyphens at 8, 13, 18 and
/// 23, lowercase hex elsewhere, version `4` at 14 and variant `8`, `9`,
/// `a` or `b` at 19.
pub open spec fn uuid_v4_shape(s: Seq<char>) -> bool {
    &&& s.len() == 36
    &&& forall|i: int| 0 <= i < 36 ==> if i == 8 || i == 13 || i == 18 || i == 23 {
        s[i] == '-'
    } else {
        is_hex_char(#[trigger] s[i])
    }
    &&& s[14] == '4'
    &&& (s[19] == '8' || s[19] == '9' || s[19] == 'a' || s[19] == 'b')
}

proof fn lemma_hex2(b: u8)
    ensures
        is_hex_char(hex2(b)[0]),
        is_hex_char(hex2(b)[1]),
        hex2(b).len() == 2,
{
}

/// Every minted session id has the UUID v4 shape.
pub proof fn law_session_ids_are_uuid_v4(nanos: u64, seq: u64)
    ensures
        uuid_v4_shape(session_id_text(nanos, seq)),
{
    let h = id_high(nanos, seq);
    let l = id_low(nanos, seq);
    let version = (be_byte(h, 1) & 0x0F) | 0x40;
    let variant = (le_byte(l, 0) & 0x3F) | 0x80;
    let b1 = be_byte(h, 1);
    let b0 = le_byte(l, 0);
    assert(version / 16 == 4) by (bit_vector)
        requires
            version == (b1 & 0x0F) | 0x40,
    ;
    assert(8 <= variant / 16 <= 11) by (bit_vector)
        requires
            variant == (b0 & 0x3F) | 0x80,
    ;
    let s = session_id_text(nanos, seq);
    reveal_strlit("-");
    assert forall|i: int| 0 <= i < 36 implies (if i == 8 || i == 13 || i == 18 || i == 23 {
        s[i] == '-'
    } else {
        is_hex_char(#[trigger] s[i])
    }) by {
        lemma_hex2(be_byte(h, 0));
        lemma_hex2(be_byte(h, 1));
        lemma_hex2(be_byte(h, 2));
        lemma_hex2(be_byte(h, 3));
        lemma_hex2(be_byte(h, 4));
        lemma_hex2(be_byte(h, 5));
        lemma_hex2(version);
        lemma_hex2(be_byte(h, 7));
        lemma_hex2(variant);
        lemma_hex2(le_byte(l, 1));
        lemma_hex2(le_byte(l, 2));
        lemma_hex2(le_byte(l, 3));
        lemma_hex2(le_byte(l, 4));
        lemma_hex2(le_byte(l, 5));
        lemma_hex2(le_byte(l, 6));
        lemma_hex2(le_byte(l, 7));
    }
}

/// Two hex digits name one byte.
proof fn lemma_hex2_injective(a: u8, b: u8)
    requires
        hex2(a) == hex2(b),
    ensures
        a == b,
{
    assert(hex2(a)[0] == hex2(b)[0]);
    assert(hex2(a)[1] == hex2(b)[1]);
    assert(a / 16 == b / 16);
    assert(a % 16 == b % 16);
}

/// Byte `k` of a minted id's low half, as it stands in the text.
proof fn lemma_low_bytes_in_text(nanos: u64, seq: u64)
    ensures
        ({
            let t = session_id_text(nanos, seq);
            let l = id_low(nanos, seq);
            &&& t.subrange(21, 23) == hex2(le_byte(l, 1))
            &&& t.subrange(24, 26) == hex2(le_byte(l, 2))
            &&& t.subrange(26, 28) == hex2(le_byte(l, 3))
            &&& t.subrange(28, 30) == hex2(le_byte(l, 4))
            &&& t.subrange(30, 32) == hex2(le_byte(l, 5))
            &&& t.subrange(32, 34) == hex2(le_byte(l, 6))
            &&& t.subrange(34, 36) == hex2(le_byte(l, 7))
        }),
{
    reveal_strlit("-");
    let t = session_id_text(nanos, seq);
    let l = id_low(nanos, seq);
    assert(t.subrange(21, 23) =~= hex2(le_byte(l, 1)));
    assert(t.subrange(24, 26) =~= hex2(le_byte(l, 2)));
    assert(t.subrange(26, 28) =~= hex2(le_byte(l, 3)));
    assert(t.subrange(28, 30) =~= hex2(le_byte(l, 4)));
    assert(t.subrange(30, 32) =~= hex2(le_byte(l, 5)));
    assert(t.subrange(32, 34) =~= hex2(le_byte(l, 6)));
    assert(t.subrange(34, 36) =~= hex2(le_byte(l, 7)));
}

/// Ids minted with different sequence numbers differ, whatever the
/// clock read, as long as the sequence numbers stay below `2^56`.
pub proof fn law_session_ids_differ(n1: u64, s1: u64, n2: u64, s2: u64)
    requires
        s1 != s2,
        s1 < 0x100_0000_0000_0000u64,
        s2 < 0x100_0000_0000_0000u64,
    ensures
        session_id_text(n1, s1) != session_id_text(n2, s2),
{
    let l1 = id_low(n1, s1);
    let l2 = id_low(n2, s2);
    if session_id_text(n1, s1) == session_id_text(n2, s2) {
        lemma_low_bytes_in_text(n1, s1);
        lemma_low_bytes_in_text(n2, s2);
        lemma_hex2_injective(le_byte(l1, 1), le_byte(l2, 1));
        lemma_hex2_injective(le_byte(l1, 2), le_byte(l2, 2));
        lemma_hex2_injective(le_byte(l1, 3), le_byte(l2, 3));
        lemma_hex2_injective(le_byte(l1, 4), le_byte(l2, 4));
        lemma_hex2_injective(le_byte(l1, 5), le_byte(l2, 5));
        lemma_hex2_injective(le_byte(l1, 6), le_byte(l2, 6));
        lemma_hex2_injective(le_byte(l1, 7), le_byte(l2, 7));
        let x1 = id_mix(n1 ^ s1);
        let x2 = id_mix(n2 ^ s2);
        assert(l1 == (s1 << 8u64) | (x1 & 0xFFu64));
        assert(l2 == (s2 << 8u64) | (x2 & 0xFFu64));
        assert(s1 == s2) by (bit_vector)
            requires
                l1 == (s1 << 8u64) | (x1 & 0xFFu64),
                l2 == (s2 << 8u64) | (x2 & 0xFFu64),
                s1 < 0x100_0000_0000_0000u64,
                s2 < 0x100_0000_0000_0000u64,
                (l1 >> 8u64) as u8 == (l2 >> 8u64) as u8,
                (l1 >> 16u64) as u8 == (l2 >> 16u64) as u8,
                (l1 >> 24u64) as u8 == (l2 >> 24u64) as u8,
                (l1 >> 32u64) as u8 == (l2 >> 32u64) as u8,
                (l1 >> 40u64) as u8 == (l2 >> 40u64) as u8,
                (l1 >> 48u64) as u8 == (l2 >> 48u64) as u8,
                (l1 >> 56u64) as u8 == (l2 >> 56u64) as u8,
        ;
    }
}

/// The session is still alive at `now`: it never expires, or at most
/// `ttl` seconds passed since its last activity.
pub open spec fn alive(last_activity: i64, ttl: u64, now: i64) -> bool {
    ttl == 0 || now - last_activity <= ttl * nanos_per_sec()
}

/// `alive`, executable.
pub fn is_alive(last_activity: i64, ttl: u64, now: i64) -> (r: bool)
    ensures
        r == alive(last_activity, ttl, now),
{
    if ttl == 0 {
        return true;
    }
    let age: i128 = (now as i128) - (last_activity as i128);
    let limit: i128 = (ttl as i128) * 1_000_000_000i128;
    age <= limit
}

/// Whether a session is alive at `now`.
pub open spec fn live_test(now: i64) -> spec_fn(BrainSessionState) -> bool {
    |st: BrainSessionState| alive(st.last_activity, st.ttl, now)
}

/// Whether a session's id differs from `id`.
pub open spec fn other_test(id: Seq<char>) -> spec_fn(BrainSessionState) -> bool {
    |st: BrainSessionState| st.session_id@ != id
}

/// The sessions of `v` still alive at `now`, in order.
pub open spec fn live_at(v: Seq<BrainSessionState>, now: i64) -> Seq<BrainSessionState> {
    v.filter(live_test(now))
}

/// The sessions of `v` other than `id`, in order.
pub open spec fn without(v: Seq<BrainSessionState>, id: Seq<char>) -> Seq<BrainSessionState> {
    v.filter(other_test(id))
}

/// No two sessions of `v` share an id.
pub open spec fn unique_ids(v: Seq<BrainSessionState>) -> bool {
    forall|i: int, j: int|
        0 <= i < j < v.len() ==> (#[trigger] v[i]).session_id@ != (#[trigger] v[j]).session_id@
}

/// Keeping some sessions keeps the ids unique.
proof fn lemma_filter_keeps_unique(v: Seq<BrainSessionState>, p: spec_fn(BrainSessionState) -> bool)
    requires
        unique_ids(v),
    ensures
        unique_ids(v.filter(p)),
    decreases v.len(),
{
    reveal(Seq::filter);
    if v.len() > 0 {
        let w = v.drop_last();
        let x = v.last();
        assert(unique_ids(w)) by {
            assert forall|i: int, j: int| 0 <= i < j < w.len() implies (#[trigger] w[i]).session_id@
                != (#[trigger] w[j]).session_id@ by {
                assert(w[i] == v[i] && w[j] == v[j]);
            }
        }
        lemma_filter_keeps_unique(w, p);
        if p(x) {
            let f = w.filter(p);
            assert forall|k: int| 0 <= k < f.len() implies (#[trigger] f[k]).session_id@ != x.session_id@ by {
                assert(f.contains(f[k]));
                w.lemma_filter_contains_rev(p, f[k]);
                let m = choose|m: int| 0 <= m < w.len() && w[m] == f[k];
                assert(v[m] == w[m]);
                assert(v[v.len() - 1] == x);
            }
            assert(v.filter(p) =~= f.push(x));
            assert forall|i: int, j: int| 0 <= i < j < f.push(x).len() implies (#[trigger] f.push(x)[i]).session_id@
                != (#[trigger] f.push(x)[j]).session_id@ by {
                if j == f.len() {
                    assert(f.push(x)[j] == x);
                    assert(f.push(x)[i] == f[i]);
                } else {
                    assert(f.push(x)[i] == f[i] && f.push(x)[j] == f[j]);
                }
            }
        }
    }
}

/// No session kept by `without(u, id)` has id `id`.
proof fn lemma_without_has_no(u: Seq<BrainSessionState>, id: Seq<char>)
    ensures
        forall|k: int| 0 <= k < without(u, id).len() ==> (#[trigger] without(u, id)[k]).session_id@ != id,
{
    let pi = other_test(id);
    assert forall|k: int| 0 <= k < without(u, id).len() implies (#[trigger] without(u, id)[k]).session_id@ != id by {
        u.lemma_filter_pred(pi, k);
    }
}

/// Adding a session whose id none of `v` has keeps the ids unique.
proof fn lemma_push_keeps_unique(v: Seq<BrainSessionState>, st: BrainSessionState)
    requires
        unique_ids(v),
        forall|k: int| 0 <= k < v.len() ==> (#[trigger] v[k]).session_id@ != st.session_id@,
    ensures
        unique_ids(v.push(st)),
{
    assert forall|i: int, j: int| 0 <= i < j < v.push(st).len() implies (#[trigger] v.push(st)[i]).session_id@
        != (#[trigger] v.push(st)[j]).session_id@ by {
        assert(v.push(st)[i] == v[i]);
        if j < v.len() {
            assert(v.push(st)[j] == v[j]);
        }
    }
}

/// Index of the first session of `v` with id `id`.
pub open spec fn find(v: Seq<BrainSessionState>, id: Seq<char>) -> Option<int> {
    if exists|k: int| 0 <= k < v.len() && (#[trigger] v[k]).session_id@ == id {
        Some(
            choose|k: int|
                0 <= k < v.len() && (#[trigger] v[k]).session_id@ == id && forall|j: int|
                    0 <= j < k ==> (#[trigger] v[j]).session_id@ != id,
        )
    } else {
        None
    }
}

/// The open sessions, at most one per id: every operation keeps the ids
/// unique.
#[derive(Debug)]
pub struct SessionRegistry {
    sessions: Vec<BrainSessionState>,
    minted: u64,
}

impl View for SessionRegistry {
    type V = Seq<BrainSessionState>;

    closed spec fn view(&self) -> Seq<BrainSessionState> {
        self.sessions@
    }
}

impl SessionRegistry {
    /// How many ids this registry has minted (modulo `2^64`): the
    /// sequence number of the next one.
    pub closed spec fn ids_minted(&self) -> u64 {
        self.minted
    }
}

/// The sequence number after `m`.
pub open spec fn next_seq(m: u64) -> u64 {
    if m == u64::MAX {
        0
    } else {
        (m + 1) as u64
    }
}

fn same_id(a: &String, b: &str) -> (r: bool)
    ensures
        r == (a@ == b@),
{
    let x = chars_of(a.as_str());
    let y = chars_of(b);
    chars_eq(&x, &y)
}

/// The first match is found by a left-to-right scan.
proof fn lemma_find_first(v: Seq<BrainSessionState>, id: Seq<char>, k: int)
    requires
        0 <= k < v.len(),
        v[k].session_id@ == id,
        forall|j: int| 0 <= j < k ==> (#[trigger] v[j]).session_id@ != id,
    ensures
        find(v, id) == Some(k),
{
    let c = choose|c: int|
        0 <= c < v.len() && (#[trigger] v[c]).session_id@ == id && forall|j: int|
            0 <= j < c ==> (#[trigger] v[j]).session_id@ != id;
    assert(v[k].session_id@ == id);
    if c < k {
        assert(v[c].session_id@ != id);
    } else if c > k {
        assert(v[k].session_id@ != id);
    }
}

impl SessionRegistry {
    /// An empty registry.
    pub fn new() -> (r: Self)
        ensures
            r@.len() == 0,
            unique_ids(r@),
            r.ids_minted() == 0,
    {
        SessionRegistry { sessions: Vec::new(), minted: 0 }
    }

    /// Number of open sessions.
    pub fn len(&self) -> (r: usize)
        ensures
            r == self@.len(),
    {
        self.sessions.len()
    }

    /// Drops every session expired at `now`.
    pub fn evict_expired(&mut self, now: i64)
        ensures
            final(self).ids_minted() == old(self).ids_minted(),
            final(self)@ == live_at(old(self)@, now),
            unique_ids(old(self)@) ==> unique_ids(final(self)@),
    {
        proof {
            if unique_ids(self@) {
                lemma_filter_keeps_unique(self@, live_test(now));
            }
        }
        let mut kept: Vec<BrainSessionState> = Vec::new();
        let ghost v = self.sessions@;
        let n: usize = self.sessions.len();
        let mut i: usize = 0;
        let ghost m = self.minted;
        while self.sessions.len() > 0
            invariant
                self.minted == m,
                v.len() == n,
                i + self.sessions@.len() == v.len(),
                self.sessions@ == v.skip(i as int),
                kept@ == live_at(v.take(i as int), now),
            decreases self.sessions.len(),
        {
            let st = self.sessions.remove(0);
            proof {
                assert(v[i as int] == st);
                assert(v.take(i + 1).drop_last() =~= v.take(i as int));
                reveal(Seq::filter);
                assert(self.sessions@ =~= v.skip(i + 1));
            }
            let ghost before = kept@;
            if is_alive(st.last_activity, st.ttl, now) {
                kept.push(st);
            }
            proof {
                assert(kept@ =~= live_at(v.take(i + 1), now));
            }
            i = i + 1;
        }
        assert(v.take(i as int) =~= v);
        self.sessions = kept;
    }

    /// Removes the session `session_id`; `true` when it was open.
    /// Closing twice is not an error.
    pub fn close(&mut self, session_id: &str) -> (r: bool)
        ensures
            final(self).ids_minted() == old(self).ids_minted(),
            final(self)@ == without(old(self)@, session_id@),
            r == (find(old(self)@, session_id@) is Some),
            unique_ids(old(self)@) ==> unique_ids(final(self)@),
    {
        proof {
            if unique_ids(self@) {
                lemma_filter_keeps_unique(self@, other_test(session_id@));
            }
        }
        let mut kept: Vec<BrainSessionState> = Vec::new();
        let ghost v = self.sessions@;
        let n: usize = self.sessions.len();
        let mut i: usize = 0;
        let mut found = false;
        let ghost m = self.minted;
        while self.sessions.len() > 0
            invariant
                self.minted == m,
                v.len() == n,
                i + self.sessions@.len() == v.len(),
                self.sessions@ == v.skip(i as int),
                kept@ == without(v.take(i as int), session_id@),
                found == exists|k: int| 0 <= k < i && (#[trigger] v[k]).session_id@ == session_id@,
            decreases self.sessions.len(),
        {
            let st = self.sessions.remove(0);
            proof {
                assert(v[i as int] == st);
                assert(v.take(i + 1).drop_last() =~= v.take(i as int));
                reveal(Seq::filter);
                assert(self.sessions@ =~= v.skip(i + 1));
            }
            if same_id(&st.session_id, session_id) {
                found = true;
            } else {
                kept.push(st);
            }
            proof {
                assert(kept@ =~= without(v.take(i + 1), session_id@));
            }
            i = i + 1;
        }
        assert(v.take(i as int) =~= v);
        self.sessions = kept;
        found
    }

    /// Opens a session at `now`: mints its id from the clock and the
    /// registry's sequence number, evicts expired sessions, then adds the
    /// new one (replacing an open session with the same id). Returns the
    /// id.
    pub fn open(&mut self, workspace_id: String, ttl: u64, now: i64) -> (id: String)
        ensures
            id@ == session_id_text(id_clock(now), old(self).ids_minted()),
            final(self).ids_minted() == next_seq(old(self).ids_minted()),
            final(self)@.len() >= 1,
            final(self)@.drop_last() == without(live_at(old(self)@, now), id@),
            final(self)@.last().session_id@ == id@,
            final(self)@.last().workspace_id == workspace_id,
            final(self)@.last().created_at == now,
            final(self)@.last().last_activity == now,
            final(self)@.last().ttl == ttl,
            final(self)@.last().focus_node is None,
            final(self)@.last().history@.len() == 0,
            unique_ids(old(self)@) ==> unique_ids(final(self)@),
    {
        let ghost before = self@;
        let nanos: u64 = if now < 0 {
            0
        } else {
            now as u64
        };
        let session_id = generate_session_id(nanos, self.minted);
        self.minted = self.minted.wrapping_add(1);
        let id = owned(session_id.as_str());
        self.evict_expired(now);
        let _ = self.close(session_id.as_str());
        let st = BrainSessionState::new(session_id, workspace_id, ttl, now);
        self.sessions.push(st);
        assert(self.sessions@.drop_last() =~= without(live_at(old(self)@, now), id@));
        proof {
            if unique_ids(before) {
                let rest = self.sessions@.drop_last();
                lemma_filter_keeps_unique(before, live_test(now));
                lemma_filter_keeps_unique(live_at(before, now), other_test(id@));
                lemma_without_has_no(live_at(before, now), id@);
                lemma_push_keeps_unique(rest, st);
                assert(self.sessions@ =~= rest.push(st));
            }
        }
        id
    }

    /// Index of the session `session_id`.
    fn position(&self, session_id: &str) -> (r: Option<usize>)
        ensures
            match r {
                Some(k) => k < self@.len() && find(self@, session_id@) == Some(k as int),
                None => find(self@, session_id@) is None,
            },
    {
        let mut i: usize = 0;
        while i < self.sessions.len()
            invariant
                i <= self.sessions.len(),
                forall|j: int| 0 <= j < i ==> (#[trigger] self.sessions@[j]).session_id@ != session_id@,
            decreases self.sessions.len() - i,
        {
            if same_id(&self.sessions[i].session_id, session_id) {
                proof {
                    lemma_find_first(self.sessions@, session_id@, i as int);
                }
                return Some(i);
            }
            i = i + 1;
        }
        None
    }

    /// Looks up a session at `now` without refreshing it: evicts expired
    /// sessions first.
    pub fn get(&mut self, session_id: &str, now: i64) -> (r: Result<&BrainSessionState, SessionError>)
        ensures
            final(self).ids_minted() == old(self).ids_minted(),
            final(self)@ == live_at(old(self)@, now),
            unique_ids(old(self)@) ==> unique_ids(final(self)@),
            match find(live_at(old(self)@, now), session_id@) {
                Some(k) => r matches Ok(st) && *st == final(self)@[k],
                None => r == Err::<&BrainSessionState, SessionError>(SessionError::NotFound),
            },
    {
        self.evict_expired(now);
        match self.position(session_id) {
            Some(k) => Ok(&self.sessions[k]),
            None => Err(SessionError::NotFound),
        }
    }

    /// Rejoins a session at `now`: evicts expired sessions, then marks
    /// the session active at `now`.
    pub fn attach(&mut self, session_id: &str, now: i64) -> (r: Result<(), SessionError>)
        ensures
            final(self).ids_minted() == old(self).ids_minted(),
            match find(live_at(old(self)@, now), session_id@) {
                Some(k) => {
                    let live = live_at(old(self)@, now);
                    &&& r is Ok
                    &&& final(self)@.len() == live.len()
                    &&& forall|j: int|
                        0 <= j < final(self)@.len() && j != k ==> final(self)@[j] == live[j]
                    &&& final(self)@[k].session_id == live[k].session_id
                    &&& final(self)@[k].workspace_id == live[k].workspace_id
                    &&& final(self)@[k].created_at == live[k].created_at
                    &&& final(self)@[k].ttl == live[k].ttl
                    &&& final(self)@[k].focus_node == live[k].focus_node
                    &&& final(self)@[k].history@ == live[k].history@
                    &&& final(self)@[k].last_activity == now
                },
                None => r == Err::<(), SessionError>(SessionError::NotFound) && final(self)@
                    == live_at(old(self)@, now),
            },
            unique_ids(old(self)@) ==> unique_ids(final(self)@),
    {
        self.evict_expired(now);
        let ghost live = self@;
        match self.position(session_id) {
            Some(k) => {
                let mut st = self.sessions.remove(k);
                st.last_activity = now;
                self.sessions.insert(k, st);
                proof {
                    if unique_ids(live) {
                        assert forall|i: int, j: int| 0 <= i < j < self@.len() implies (#[trigger] self@[i]).session_id@
                            != (#[trigger] self@[j]).session_id@ by {
                            assert(self@[i].session_id == live[i].session_id);
                            assert(self@[j].session_id == live[j].session_id);
                        }
                    }
                }
                Ok(())
            },
            None => Err(SessionError::NotFound),
        }
    }
}

/// A session that never expires survives every eviction.
pub proof fn law_zero_ttl_never_expires(last_activity: i64, now: i64)
    ensures
        alive(last_activity, 0, now),
{
}

/// After closing a session, looking it up finds nothing.
pub proof fn law_closed_is_gone(v: Seq<BrainSessionState>, id: Seq<char>, now: i64)
    ensures
        find(live_at(without(v, id), now), id) is None,
{
    let u = without(v, id);
    let w = live_at(u, now);
    let pa = live_test(now);
    let pi = other_test(id);
    if exists|k: int| 0 <= k < w.len() && (#[trigger] w[k]).session_id@ == id {
        let k = choose|k: int| 0 <= k < w.len() && (#[trigger] w[k]).session_id@ == id;
        assert(w.contains(w[k]));
        u.lemma_filter_contains_rev(pa, w[k]);
        let j = choose|j: int| 0 <= j < u.len() && u[j] == w[k];
        v.lemma_filter_pred(pi, j);
        assert(false);
    }
}

/// The history never exceeds the cap, and its newest entry is the one
/// pushed last.
pub proof fn law_history_capped(h: Seq<HistoryEntry>, e: HistoryEntry)
    ensures
        capped_push(h, e).len() <= 50,
        capped_push(h, e).last() == e,
        h.len() < 50 ==> capped_push(h, e) == h.push(e),
{
}

/// A session attached at `now` is alive at `now`.
pub proof fn law_attached_is_alive(ttl: u64, now: i64)
    ensures
        alive(now, ttl, now),
{
}

/// No session kept by `without(u, id)`, nor by any filter of it, has id
/// `id`.
proof fn lemma_without_lacks(u: Seq<BrainSessionState>, id: Seq<char>, now: i64)
    ensures
        forall|j: int|
            0 <= j < live_at(without(u, id), now).len() ==> (#[trigger] live_at(
                without(u, id),
                now,
            )[j]).session_id@ != id,
{
    let rest = without(u, id);
    let pa = live_test(now);
    let pi = other_test(id);
    assert forall|j: int| 0 <= j < rest.filter(pa).len() implies (#[trigger] rest.filter(pa)[j]).session_id@ != id by {
        let x = rest.filter(pa)[j];
        assert(rest.filter(pa).contains(x));
        rest.lemma_filter_contains_rev(pa, x);
        let m = choose|m: int| 0 <= m < rest.len() && rest[m] == x;
        u.lemma_filter_pred(pi, m);
    }
}

/// A session just opened is found at once: in the registry that `open`
/// leaves (the live sessions other than it, then it), looking it up at
/// the same instant, after the eviction the lookup runs, gives it back.
pub proof fn law_opened_session_is_found(
    before: Seq<BrainSessionState>,
    st: BrainSessionState,
    now: i64,
)
    requires
        st.last_activity == now,
    ensures
        ({
            let after = without(live_at(before, now), st.session_id@).push(st);
            let live = live_at(after, now);
            &&& live.len() >= 1
            &&& find(live, st.session_id@) == Some(live.len() - 1)
            &&& live[live.len() - 1] == st
        }),
{
    let id = st.session_id@;
    let rest = without(live_at(before, now), id);
    let after = rest.push(st);
    let pa = live_test(now);
    assert(alive(now, st.ttl, now));
    assert(rest.filter(pa).push(st) =~= after.filter(pa)) by {
        reveal(Seq::filter);
        assert(after.drop_last() =~= rest);
    }
    let live = live_at(after, now);
    assert(live =~= live_at(rest, now).push(st));
    lemma_without_lacks(live_at(before, now), id, now);
    assert forall|j: int| 0 <= j < live.len() - 1 implies (#[trigger] live[j]).session_id@ != id by {
        assert(live[j] == live_at(rest, now)[j]);
    }
    lemma_find_first(live, id, live.len() - 1);
}

} // verus!
