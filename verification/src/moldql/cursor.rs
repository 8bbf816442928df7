//! Single-pass character cursor shared by the MoldQL parsers.
//!
//! The cursor holds the query's characters, the index of the current
//! character (`pos`) and its UTF-8 byte offset (`index`). `peek_*`
//! never advances; `advance*`, `skip_ws`, `scan` and `consume_keyword`
//! do. Line and column are 1-based and recomputed on demand.
//!
//! The spec functions of this module describe each step over the query
//! text `s: Seq<char>` and a character index `i`; the parser contracts
//! are written over them.

use vstd::prelude::*;
use crate::text::{
    spec_is_whitespace, is_whitespace, char_alphanumeric, is_alphanumeric, spec_is_digit, is_digit, eq_ignore_case, utf8_len, char_width, lemma_utf8_len_push,
    chars_of, string_of_range, slice_chars, lower_vec, chars_eq, seq_lower, spec_lower,
};

verus! {

/// The characters at which a scan stops.
#[derive(Clone, Copy, PartialEq, Eq, Structural)]
pub enum StopSet {
    /// Everything but whitespace (used to skip whitespace).
    NonSpace,
    /// Whitespace, the operator characters `> < = ! ~ "`, `.` and the
    /// parentheses: the end of a keyword.
    Keyword,
    /// Whitespace, the operator characters and `.`: the end of an
    /// identifier.
    Ident,
    /// Whitespace, the operator characters and `)`: the end of a bare
    /// value.
    Word,
    /// The closing `"` of a quoted string.
    Quote,
    /// Anything but an alphanumeric character or `_`.
    NotIdentChar,
    /// Anything but an ASCII digit.
    NotDigit,
    /// Anything but `-`, `>` and `<`.
    NotArrowChar,
    /// Anything but an ASCII digit or `.`.
    NotNumberChar,
}

pub open spec fn is_operator_char(c: char) -> bool {
    c == '>' || c == '<' || c == '=' || c == '!' || c == '~' || c == '"'
}

pub open spec fn is_stop(k: StopSet, c: char) -> bool {
    match k {
        StopSet::NonSpace => !spec_is_whitespace(c),
        StopSet::Keyword => spec_is_whitespace(c) || is_operator_char(c) || c == '.' || c == '('
            || c == ')',
        StopSet::Ident => spec_is_whitespace(c) || is_operator_char(c) || c == '.',
        StopSet::Word => spec_is_whitespace(c) || is_operator_char(c) || c == ')',
        StopSet::Quote => c == '"',
        StopSet::NotIdentChar => !(char_alphanumeric(c) || c == '_'),
        StopSet::NotDigit => !spec_is_digit(c),
        StopSet::NotArrowChar => !(c == '-' || c == '>' || c == '<'),
        StopSet::NotNumberChar => !(spec_is_digit(c) || c == '.'),
    }
}

/// First index `>= i` holding a character of `k`, or the end of `s`.
pub open spec fn scan_to(s: Seq<char>, i: int, k: StopSet) -> int
    decreases s.len() - i,
{
    if i < 0 || i >= s.len() || is_stop(k, s[i]) {
        i
    } else {
        scan_to(s, i + 1, k)
    }
}

/// Index after the whitespace at `i`.
pub open spec fn ws_end(s: Seq<char>, i: int) -> int {
    scan_to(s, i, StopSet::NonSpace)
}

/// Start and end of the keyword token at `i` (after whitespace).
pub open spec fn keyword_span(s: Seq<char>, i: int) -> (int, int) {
    let a = ws_end(s, i);
    (a, scan_to(s, a, StopSet::Keyword))
}

/// `peek_keyword`: the keyword token at `i`, `None` when it is empty.
pub open spec fn peek_keyword_at(s: Seq<char>, i: int) -> Option<Seq<char>> {
    let (a, b) = keyword_span(s, i);
    if a == b {
        None
    } else {
        Some(s.subrange(a, b))
    }
}

/// The keyword token at `i` matches `kw`, ignoring ASCII case.
pub open spec fn keyword_is(s: Seq<char>, i: int, kw: Seq<char>) -> bool {
    match peek_keyword_at(s, i) {
        Some(t) => eq_ignore_case(t, kw),
        None => false,
    }
}

/// Index after the keyword token at `i` and the whitespace after it.
pub open spec fn after_keyword(s: Seq<char>, i: int) -> int {
    ws_end(s, keyword_span(s, i).1)
}

/// 1-based (line, column) of index `i`.
pub open spec fn line_col(s: Seq<char>, i: int) -> (int, int)
    decreases i,
{
    if i <= 0 {
        (1, 1)
    } else {
        let (l, c) = line_col(s, i - 1);
        if s[i - 1] == '\n' {
            (l + 1, 1)
        } else {
            (l, c + 1)
        }
    }
}

/// Up to 32 characters from `i` on.
pub open spec fn remaining_at(s: Seq<char>, i: int) -> Seq<char> {
    s.subrange(i, if s.len() - i > 32 {
        i + 32
    } else {
        s.len() as int
    })
}

/// Index after advancing `n` characters from `i`, stopping at the end.
pub open spec fn advance_n(s: Seq<char>, i: int, n: int) -> int {
    if i + n > s.len() {
        s.len() as int
    } else {
        i + n
    }
}

/// The longest query text the cursor takes: its line and column
/// counters are `u32`.
pub open spec fn max_query_len() -> int {
    0xFFFF_FFFE
}

/// Single-pass cursor over a query.
pub struct Cursor {
    /// The query's characters.
    pub input: Vec<char>,
    /// UTF-8 byte offset of the current character.
    pub index: u64,
    /// Index of the current character.
    pub pos: usize,
}

impl Cursor {
    /// The cursor's fields agree with each other.
    pub open spec fn wf(&self) -> bool {
        &&& self.pos <= self.input.len()
        &&& self.input.len() <= max_query_len()
        &&& self.index == utf8_len(self.input@.take(self.pos as int))
        &&& self.index <= 4 * self.pos
    }

    /// The query text.
    pub open spec fn text(&self) -> Seq<char> {
        self.input@
    }

    /// The same query, at index `i`.
    pub open spec fn at(&self, i: int) -> bool {
        self.pos == i
    }

    /// A cursor at the start of `input`.
    pub fn new(input: &str) -> (r: Cursor)
        requires
            input@.len() <= max_query_len(),
        ensures
            r.wf(),
            r.input@ == input@,
            r.pos == 0,
            r.index == 0,
    {
        let v = chars_of(input);
        assert(input@.take(0) =~= Seq::<char>::empty());
        Cursor { input: v, index: 0, pos: 0 }
    }

    /// At the end of the input.
    pub fn is_eof(&self) -> (r: bool)
        requires
            self.wf(),
        ensures
            r == (self.pos >= self.input.len()),
    {
        self.pos >= self.input.len()
    }

    /// The current character.
    pub fn peek_char(&self) -> (r: Option<char>)
        requires
            self.wf(),
        ensures
            r == if self.pos < self.input.len() {
                Some(self.input@[self.pos as int])
            } else {
                None
            },
    {
        if self.pos < self.input.len() {
            Some(self.input[self.pos])
        } else {
            None
        }
    }

    /// The character `offset` places after the current one.
    pub fn peek_char_at(&self, offset: usize) -> (r: Option<char>)
        requires
            self.wf(),
        ensures
            r == if self.pos + offset < self.input.len() {
                Some(self.input@[self.pos + offset])
            } else {
                None
            },
    {
        if offset < self.input.len() - self.pos {
            Some(self.input[self.pos + offset])
        } else {
            None
        }
    }

    /// Moves one character ahead; nothing at the end.
    pub fn advance(&mut self)
        requires
            old(self).wf(),
        ensures
            final(self).wf(),
            final(self).input == old(self).input,
            final(self).pos == advance_n(old(self).input@, old(self).pos as int, 1),
    {
        if self.pos < self.input.len() {
            let c = self.input[self.pos];
            let w = char_width(c);
            proof {
                let s = self.input@;
                let p = self.pos as int;
                assert(s.take(p + 1) =~= s.take(p).push(c));
                lemma_utf8_len_push(s.take(p), c);
            }
            self.index = self.index + w as u64;
            self.pos = self.pos + 1;
        }
    }

    /// Moves `chars` characters ahead, stopping at the end.
    pub fn advance_by(&mut self, chars: usize)
        requires
            old(self).wf(),
        ensures
            final(self).wf(),
            final(self).input == old(self).input,
            final(self).pos == advance_n(old(self).input@, old(self).pos as int, chars as int),
    {
        let mut k: usize = 0;
        while k < chars
            invariant
                self.wf(),
                self.input == old(self).input,
                k <= chars,
                self.pos == advance_n(old(self).input@, old(self).pos as int, k as int),
            decreases chars - k,
        {
            self.advance();
            k = k + 1;
        }
    }

    /// Moves to the first character of `k` (or the end).
    pub fn scan(&mut self, k: StopSet)
        requires
            old(self).wf(),
        ensures
            final(self).wf(),
            final(self).input == old(self).input,
            final(self).pos == scan_to(old(self).input@, old(self).pos as int, k),
    {
        while self.pos < self.input.len() && !stops(k, self.input[self.pos])
            invariant
                self.wf(),
                self.input == old(self).input,
                old(self).pos <= self.pos,
                scan_to(self.input@, self.pos as int, k) == scan_to(
                    self.input@,
                    old(self).pos as int,
                    k,
                ),
            decreases self.input.len() - self.pos,
        {
            self.advance();
        }
    }

    /// Skips whitespace.
    pub fn skip_ws(&mut self)
        requires
            old(self).wf(),
        ensures
            final(self).wf(),
            final(self).input == old(self).input,
            final(self).pos == ws_end(old(self).input@, old(self).pos as int),
    {
        self.scan(StopSet::NonSpace);
    }

    /// The keyword token after any whitespace, without advancing.
    pub fn peek_keyword(&self) -> (r: Option<String>)
        requires
            self.wf(),
        ensures
            match r {
                Some(t) => peek_keyword_at(self.input@, self.pos as int) == Some(t@),
                None => peek_keyword_at(self.input@, self.pos as int) is None,
            },
    {
        let (a, b) = self.keyword_bounds();
        if a == b {
            None
        } else {
            Some(string_of_range(&self.input, a, b))
        }
    }

    /// The characters of the keyword token after any whitespace.
    pub fn peek_keyword_chars(&self) -> (r: Option<Vec<char>>)
        requires
            self.wf(),
        ensures
            match r {
                Some(t) => peek_keyword_at(self.input@, self.pos as int) == Some(t@),
                None => peek_keyword_at(self.input@, self.pos as int) is None,
            },
    {
        let (a, b) = self.keyword_bounds();
        if a == b {
            None
        } else {
            Some(slice_chars(&self.input, a, b))
        }
    }

    /// Start and end of the keyword token after any whitespace.
    fn keyword_bounds(&self) -> (r: (usize, usize))
        requires
            self.wf(),
        ensures
            r.0 == keyword_span(self.input@, self.pos as int).0,
            r.1 == keyword_span(self.input@, self.pos as int).1,
            r.0 <= r.1 <= self.input.len(),
    {
        let a = scan_index(&self.input, self.pos, StopSet::NonSpace);
        let b = scan_index(&self.input, a, StopSet::Keyword);
        (a, b)
    }

    /// The keyword token matches `kw`, ignoring ASCII case.
    pub fn keyword_is(&self, kw: &str) -> (r: bool)
        requires
            self.wf(),
        ensures
            r == keyword_is(self.input@, self.pos as int, kw@),
    {
        let (a, b) = self.keyword_bounds();
        if a == b {
            return false;
        }
        let mut t: Vec<char> = Vec::new();
        let mut i = a;
        while i < b
            invariant
                a <= i <= b <= self.input.len(),
                t@ == self.input@.subrange(a as int, i as int),
            decreases b - i,
        {
            t.push(self.input[i]);
            assert(t@ =~= self.input@.subrange(a as int, i + 1));
            i = i + 1;
        }
        let lt = lower_vec(&t);
        let kc = chars_of(kw);
        let lk = lower_vec(&kc);
        chars_eq(&lt, &lk)
    }

    /// Moves past the keyword token and the whitespace after it. The
    /// token must be `keyword`, ignoring ASCII case.
    pub fn consume_keyword(&mut self, keyword: &str)
        requires
            old(self).wf(),
            eq_ignore_case(
                old(self).input@.subrange(
                    keyword_span(old(self).input@, old(self).pos as int).0,
                    keyword_span(old(self).input@, old(self).pos as int).1,
                ),
                keyword@,
            ),
        ensures
            final(self).wf(),
            final(self).input == old(self).input,
            final(self).pos == after_keyword(old(self).input@, old(self).pos as int),
    {
        self.skip_word();
    }

    /// Moves past the keyword token, whatever it is, and the whitespace
    /// after it.
    pub fn skip_word(&mut self)
        requires
            old(self).wf(),
        ensures
            final(self).wf(),
            final(self).input == old(self).input,
            final(self).pos == after_keyword(old(self).input@, old(self).pos as int),
    {
        self.skip_ws();
        self.scan(StopSet::Keyword);
        self.skip_ws();
    }

    /// 1-based (line, column) of the current character.
    pub fn position(&self) -> (r: (u32, u32))
        requires
            self.wf(),
        ensures
            r.0 == line_col(self.input@, self.pos as int).0,
            r.1 == line_col(self.input@, self.pos as int).1,
    {
        let mut line: u32 = 1;
        let mut col: u32 = 1;
        let mut i: usize = 0;
        while i < self.pos
            invariant
                i <= self.pos <= self.input.len() <= max_query_len(),
                line == line_col(self.input@, i as int).0,
                col == line_col(self.input@, i as int).1,
                1 <= line <= i + 1,
                1 <= col <= i + 1,
            decreases self.pos - i,
        {
            if self.input[i] == '\n' {
                line = line + 1;
                col = 1;
            } else {
                col = col + 1;
            }
            i = i + 1;
        }
        (line, col)
    }

    /// Up to 32 characters of the rest of the input, for diagnostics.
    pub fn remaining(&self) -> (r: String)
        requires
            self.wf(),
        ensures
            r@ == remaining_at(self.input@, self.pos as int),
    {
        let end = if self.input.len() - self.pos > 32 {
            self.pos + 32
        } else {
            self.input.len()
        };
        string_of_range(&self.input, self.pos, end)
    }

    /// A `String` holding the characters from `from` to the current one.
    pub fn text_from(&self, from: usize) -> (r: String)
        requires
            self.wf(),
            from <= self.pos,
        ensures
            r@ == self.input@.subrange(from as int, self.pos as int),
    {
        string_of_range(&self.input, from, self.pos)
    }
}

/// `is_stop`, executable.
pub fn stops(k: StopSet, c: char) -> (r: bool)
    ensures
        r == is_stop(k, c),
{
    match k {
        StopSet::NonSpace => !is_whitespace(c),
        StopSet::Keyword => is_whitespace(c) || c == '>' || c == '<' || c == '=' || c == '!' || c
            == '~' || c == '"' || c == '.' || c == '(' || c == ')',
        StopSet::Ident => is_whitespace(c) || c == '>' || c == '<' || c == '=' || c == '!' || c
            == '~' || c == '"' || c == '.',
        StopSet::Word => is_whitespace(c) || c == '>' || c == '<' || c == '=' || c == '!' || c
            == '~' || c == '"' || c == ')',
        StopSet::Quote => c == '"',
        StopSet::NotIdentChar => !(is_alphanumeric(c) || c == '_'),
        StopSet::NotDigit => !is_digit(c),
        StopSet::NotArrowChar => !(c == '-' || c == '>' || c == '<'),
        StopSet::NotNumberChar => !(is_digit(c) || c == '.'),
    }
}

/// `scan_to` on a buffer, without a cursor.
fn scan_index(s: &Vec<char>, i: usize, k: StopSet) -> (r: usize)
    requires
        i <= s.len(),
    ensures
        r == scan_to(s@, i as int, k),
        i <= r <= s.len(),
{
    let mut j = i;
    while j < s.len() && !stops(k, s[j])
        invariant
            i <= j <= s.len(),
            scan_to(s@, j as int, k) == scan_to(s@, i as int, k),
        decreases s.len() - j,
    {
        j = j + 1;
    }
    j
}

/// Skipping whitespace twice is skipping it once.
pub proof fn lemma_ws_end_idem(s: Seq<char>, i: int)
    requires
        0 <= i <= s.len(),
    ensures
        ws_end(s, ws_end(s, i)) == ws_end(s, i),
{
    lemma_scan_to_bounds(s, i, StopSet::NonSpace);
}

/// `scan_to` never goes back and stays inside the text.
pub proof fn lemma_scan_to_bounds(s: Seq<char>, i: int, k: StopSet)
    requires
        0 <= i <= s.len(),
    ensures
        i <= scan_to(s, i, k) <= s.len(),
        scan_to(s, i, k) < s.len() ==> is_stop(k, s[scan_to(s, i, k)]),
        forall|j: int| i <= j < scan_to(s, i, k) ==> !is_stop(k, #[trigger] s[j]),
    decreases s.len() - i,
{
    if i < s.len() && !is_stop(k, s[i]) {
        lemma_scan_to_bounds(s, i + 1, k);
    }
}

/// `scan_to` stops at the first character of `k` from `i` on: where none
/// of `s[i..j)` is one and `s[j]` is (or `j` is the end), it gives `j`.
pub proof fn lemma_scan_to_stops_at(s: Seq<char>, i: int, j: int, k: StopSet)
    requires
        0 <= i <= j <= s.len(),
        forall|x: int| i <= x < j ==> !is_stop(k, #[trigger] s[x]),
        j == s.len() || is_stop(k, s[j]),
    ensures
        scan_to(s, i, k) == j,
    decreases j - i,
{
    if i < j {
        lemma_scan_to_stops_at(s, i + 1, j, k);
    }
}

/// Number of line breaks among the first `i` characters of `s`.
pub open spec fn breaks_before(s: Seq<char>, i: int) -> int
    decreases i,
{
    if i <= 0 {
        0
    } else {
        breaks_before(s, i - 1) + if s[i - 1] == '\n' {
            1int
        } else {
            0int
        }
    }
}

/// Positions are 1-based: the line is one more than the line breaks
/// before the index, and the column is at least 1.
pub proof fn law_positions_are_one_based(s: Seq<char>, i: int)
    ensures
        line_col(s, i).0 == 1 + breaks_before(s, i),
        line_col(s, i).0 >= 1,
        line_col(s, i).1 >= 1,
    decreases i,
{
    if i > 0 {
        law_positions_are_one_based(s, i - 1);
    }
}


/// Two characters with the same lowercase form are equal or both ASCII
/// letters.
proof fn lemma_same_lower(c: char, d: char)
    requires
        spec_lower(c) == spec_lower(d),
    ensures
        c == d || (('A' <= c <= 'Z' || 'a' <= c <= 'z') && ('A' <= d <= 'Z' || 'a' <= d <= 'z')),
{
}

/// Scanning for whitespace or a keyword's end sees the same positions in
/// texts that differ only in ASCII case.
proof fn lemma_scan_ignores_case(s: Seq<char>, t: Seq<char>, i: int, k: StopSet)
    requires
        seq_lower(s) == seq_lower(t),
        k == StopSet::NonSpace || k == StopSet::Keyword,
    ensures
        scan_to(s, i, k) == scan_to(t, i, k),
    decreases s.len() - i,
{
    assert(s.len() == seq_lower(s).len() && t.len() == seq_lower(t).len());
    if 0 <= i < s.len() {
        assert(seq_lower(s)[i] == spec_lower(s[i]));
        assert(seq_lower(t)[i] == spec_lower(t[i]));
        lemma_same_lower(s[i], t[i]);
        if !is_stop(k, s[i]) {
            lemma_scan_ignores_case(s, t, i + 1, k);
        }
    }
}

/// Keywords are matched ignoring ASCII case: in two texts that differ
/// only in the case of their letters, the keyword token at `i` has the
/// same bounds, matches the same keywords, and is followed by the same
/// position.
pub proof fn law_keywords_ignore_case(s: Seq<char>, t: Seq<char>, i: int, kw: Seq<char>)
    requires
        seq_lower(s) == seq_lower(t),
    ensures
        keyword_span(s, i) == keyword_span(t, i),
        keyword_is(s, i, kw) == keyword_is(t, i, kw),
        after_keyword(s, i) == after_keyword(t, i),
{
    lemma_scan_ignores_case(s, t, i, StopSet::NonSpace);
    let a = ws_end(s, i);
    lemma_scan_ignores_case(s, t, a, StopSet::Keyword);
    let b = keyword_span(s, i).1;
    lemma_scan_ignores_case(s, t, b, StopSet::NonSpace);
    if a != b {
        assert(s.len() == t.len()) by {
            assert(s.len() == seq_lower(s).len() && t.len() == seq_lower(t).len());
        }
        lemma_scan_bounds_for(s, i, a, b);
        assert(seq_lower(s.subrange(a, b)) =~= seq_lower(s).subrange(a, b));
        assert(seq_lower(t.subrange(a, b)) =~= seq_lower(t).subrange(a, b));
    }
}

proof fn lemma_scan_bounds_for(s: Seq<char>, i: int, a: int, b: int)
    requires
        a == ws_end(s, i),
        b == scan_to(s, a, StopSet::Keyword),
        a != b,
    ensures
        0 <= a <= b <= s.len(),
{
    if i < 0 || i >= s.len() {
        assert(a == i);
        assert(b == a);
    }
    lemma_scan_to_bounds(s, i, StopSet::NonSpace);
    lemma_scan_to_bounds(s, a, StopSet::Keyword);
}

} // verus!
