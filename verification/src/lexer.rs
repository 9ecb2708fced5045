//! The lexer: a forward-only scan over the input text, one token per call.

use vstd::prelude::*;

use crate::token::Token;
use crate::token::TokenModel;
use crate::token::alphabetic_char;
use crate::token::digit_val;
use crate::token::is_digit_char;
use crate::token::numeric_char;
use crate::token::single_char_token;
use crate::token::spec_keyword;
use crate::token::whitespace_char;
use crate::token::word_token;

verus! {

/// The end of the maximal run of characters satisfying `p` that starts at
/// position `i` of `s`: the first position at or after `i` whose character
/// fails `p`, or the end of `s`.
pub open spec fn run_end(s: Seq<char>, i: int, p: spec_fn(char) -> bool) -> int
    recommends
        0 <= i <= s.len(),
    decreases s.len() - i
        when 0 <= i <= s.len()
{
    if i < s.len() && p(s[i]) {
        run_end(s, i + 1, p)
    } else {
        i
    }
}

/// What `run_end` returns: a position between `i` and the end of `s`, with
/// every character of the run satisfying `p` and the character after the run
/// (if any) failing it.
pub proof fn lemma_run_end(s: Seq<char>, i: int, p: spec_fn(char) -> bool)
    requires
        0 <= i <= s.len(),
    ensures
        i <= run_end(s, i, p) <= s.len(),
        forall|k: int| i <= k < run_end(s, i, p) ==> p(s[k]),
        run_end(s, i, p) < s.len() ==> !p(s[run_end(s, i, p)]),
    decreases s.len() - i,
{
    if i < s.len() && p(s[i]) {
        lemma_run_end(s, i + 1, p);
    }
}

/// The whitespace class, as a value, so that every mention of the
/// whitespace run is about one and the same predicate.
pub open spec fn space_pred() -> spec_fn(char) -> bool {
    |c: char| whitespace_char(c)
}

/// The letter class, as a value.
pub open spec fn letter_pred() -> spec_fn(char) -> bool {
    |c: char| alphabetic_char(c)
}

/// The numeric class, as a value.
pub open spec fn digit_pred() -> spec_fn(char) -> bool {
    |c: char| numeric_char(c)
}

/// The first position at or after `i` holding a non-whitespace character, or
/// the end of `s`.
pub open spec fn skip_spaces(s: Seq<char>, i: int) -> int
    recommends
        0 <= i <= s.len(),
{
    run_end(s, i, space_pred())
}

/// The numeric value of a run of digit characters, most significant first.
pub open spec fn digits_value(w: Seq<char>) -> int
    decreases w.len(),
{
    if w.len() == 0 {
        0
    } else {
        digits_value(w.drop_last()) * 10 + digit_val(w.last())
    }
}

/// The diagnostic carried by the token for a numeric literal whose value does
/// not fit the integer type of `Token::Int`.
pub open spec fn out_of_range_note() -> Seq<char> {
    "integer literal out of range"@
}

/// The diagnostic carried by the token for a numeric run holding a character
/// that is not an ASCII digit (a numeric character of another script or a
/// number form that the decoder does not read).
pub open spec fn invalid_digit_note() -> Seq<char> {
    "invalid digit in integer literal"@
}

/// The diagnostic carried by the token for a character that belongs to no
/// recognized class.
pub open spec fn unrecognized_note() -> Seq<char> {
    "unrecognized character"@
}

/// The token for a decoded run of ASCII digits: its value when representable,
/// else the out-of-range diagnostic.
pub open spec fn int_token(v: int) -> TokenModel {
    if v <= i32::MAX {
        TokenModel::Int(v)
    } else {
        TokenModel::Illegal(out_of_range_note())
    }
}

/// Whether every character of `w` is an ASCII digit.
pub open spec fn all_ascii_digits(w: Seq<char>) -> bool {
    forall|k: int| 0 <= k < w.len() ==> is_digit_char(w[k])
}

/// The token for a completed numeric run: the decoded integer when the run is
/// ASCII digits with a representable value, else an `Illegal` token saying
/// which way the decoding failed.
pub open spec fn numeric_run_token(w: Seq<char>) -> TokenModel {
    if all_ascii_digits(w) {
        int_token(digits_value(w))
    } else {
        TokenModel::Illegal(invalid_digit_note())
    }
}

/// The token starting at position `i` of `s` (a non-whitespace position),
/// paired with the position just past it. `==` and `!=` take precedence over
/// the one-character reading of `=` and `!`; a bare `=` or `!` falls through
/// to the one-character classification. A character outside every recognized
/// class yields an `Illegal` token and scanning resumes after it.
pub open spec fn token_at(s: Seq<char>, i: int) -> (TokenModel, int)
    recommends
        0 <= i < s.len(),
        !whitespace_char(s[i]),
{
    let c = s[i];
    if c == '=' && i + 1 < s.len() && s[i + 1] == '=' {
        (TokenModel::Eq, i + 2)
    } else if c == '!' && i + 1 < s.len() && s[i + 1] == '=' {
        (TokenModel::NotEq, i + 2)
    } else if single_char_token(c) is Some {
        (single_char_token(c)->Some_0, i + 1)
    } else if alphabetic_char(c) {
        let j = run_end(s, i, letter_pred());
        (word_token(s.subrange(i, j)), j)
    } else if numeric_char(c) {
        let j = run_end(s, i, digit_pred());
        (numeric_run_token(s.subrange(i, j)), j)
    } else {
        (TokenModel::Illegal(unrecognized_note()), i + 1)
    }
}

/// A token always covers at least one character and stays within the text.
pub proof fn lemma_token_at_advances(s: Seq<char>, i: int)
    requires
        0 <= i < s.len(),
    ensures
        i < token_at(s, i).1 <= s.len(),
{
    let c = s[i];
    if c == '=' && i + 1 < s.len() && s[i + 1] == '=' {
    } else if c == '!' && i + 1 < s.len() && s[i + 1] == '=' {
    } else if single_char_token(c) is Some {
    } else if alphabetic_char(c) {
        assert(letter_pred()(c));
        lemma_run_end(s, i + 1, letter_pred());
        assert(run_end(s, i, letter_pred()) == run_end(s, i + 1, letter_pred()));
    } else if numeric_char(c) {
        assert(digit_pred()(c));
        lemma_run_end(s, i + 1, digit_pred());
        assert(run_end(s, i, digit_pred()) == run_end(s, i + 1, digit_pred()));
    }
}

/// The sequence of tokens scanned from position `i` of `s` to the end.
pub open spec fn tokens_from(s: Seq<char>, i: int) -> Seq<TokenModel>
    recommends
        0 <= i <= s.len(),
    decreases s.len() - i
        when 0 <= i <= s.len()
        via tokens_from_decreases
{
    let j = skip_spaces(s, i);
    if j >= s.len() {
        Seq::empty()
    } else {
        seq![token_at(s, j).0] + tokens_from(s, token_at(s, j).1)
    }
}

#[via_fn]
proof fn tokens_from_decreases(s: Seq<char>, i: int) {
    lemma_run_end(s, i, space_pred());
    let j = skip_spaces(s, i);
    if j < s.len() {
        lemma_token_at_advances(s, j);
    }
}

/// The full token sequence of the text `s`.
pub open spec fn spec_tokens(s: Seq<char>) -> Seq<TokenModel> {
    tokens_from(s, 0)
}

/// A scanning session: the input text, immutable for the session's lifetime,
/// and a forward-only cursor counted in characters.
#[derive(Debug)]
pub struct Lexer {
    input: String,
    pos: usize,
}

impl Lexer {
    /// The input text as a sequence of characters.
    pub closed spec fn text(&self) -> Seq<char> {
        self.input@
    }

    /// How many characters the cursor has consumed.
    pub closed spec fn position(&self) -> int {
        self.pos as int
    }

    /// The cursor never leaves the text.
    pub open spec fn wf(&self) -> bool {
        0 <= self.position() <= self.text().len()
    }

    /// Opens a scanning session over `input`, cursor at the start. The
    /// session owns a copy of the text, so the tokens it produces never
    /// borrow from the caller's buffer.
    pub fn new(input: &str) -> (lx: Lexer)
        ensures
            lx.wf(),
            lx.text() == input@,
            lx.position() == 0,
    {
        Lexer { input: input.to_owned(), pos: 0 }
    }

    /// One-character lookahead: the character at the cursor, without
    /// consuming it.
    fn peek(&self) -> (r: Option<char>)
        requires
            self.wf(),
        ensures
            r == (if self.position() < self.text().len() {
                Some(self.text()[self.position()])
            } else {
                None::<char>
            }),
    {
        if self.pos < self.input.as_str().unicode_len() {
            Some(self.input.as_str().get_char(self.pos))
        } else {
            None
        }
    }

    /// Consumes one character and returns it.
    fn advance(&mut self) -> (c: char)
        requires
            old(self).wf(),
            old(self).position() < old(self).text().len(),
        ensures
            final(self).wf(),
            final(self).text() == old(self).text(),
            final(self).position() == old(self).position() + 1,
            c == old(self).text()[old(self).position()],
    {
        // The character count is returned as usize, so the cursor, strictly
        // below it here, can move one step without overflowing.
        let _n = self.input.as_str().unicode_len();
        let c = self.input.as_str().get_char(self.pos);
        self.pos = self.pos + 1;
        c
    }

    /// Consumes characters while `condition` holds of the peeked character,
    /// then returns the text spanned from character position `start` to the
    /// cursor. `p` is the predicate that `condition` decides.
    fn build_str_while<F: Fn(char) -> bool>(
        &mut self,
        start: usize,
        condition: F,
        Ghost(p): Ghost<spec_fn(char) -> bool>,
    ) -> (w: String)
        requires
            old(self).wf(),
            start as int <= old(self).position(),
            forall|c: char| #[trigger] call_requires(condition, (c,)),
            forall|c: char, r: bool| call_ensures(condition, (c,), r) ==> r == p(c),
        ensures
            final(self).wf(),
            final(self).text() == old(self).text(),
            final(self).position() == run_end(old(self).text(), old(self).position(), p),
            w@ == old(self).text().subrange(start as int, final(self).position()),
    {
        let ghost s = self.input@;
        let ghost p0 = self.pos as int;
        loop
            invariant
                self.wf(),
                self.input@ == s,
                start as int <= p0 <= self.pos as int,
                run_end(s, self.pos as int, p) == run_end(s, p0, p),
                forall|c: char| #[trigger] call_requires(condition, (c,)),
                forall|c: char, r: bool| call_ensures(condition, (c,), r) ==> r == p(c),
            ensures
                self.wf(),
                self.input@ == s,
                start as int <= p0 <= self.pos as int,
                run_end(s, self.pos as int, p) == run_end(s, p0, p),
                self.pos as int == s.len() || !p(s[self.pos as int]),
            decreases s.len() - self.pos,
        {
            if self.pos >= self.input.as_str().unicode_len() {
                break;
            }
            let c = self.input.as_str().get_char(self.pos);
            if !condition(c) {
                break;
            }
            self.pos = self.pos + 1;
        }
        let r = self.input.as_str().substring_char(start, self.pos);
        r.to_owned()
    }

    /// Produces the next token, or `None` once only whitespace remains. Each
    /// call skips whitespace, then consumes exactly the characters of one
    /// token: the cursor lands just past the token that `token_at` gives for
    /// the first non-whitespace position, and the token is that one. A
    /// character outside every recognized class yields an `Illegal` token and
    /// the scan continues after it.
    pub fn next_token(&mut self) -> (r: Option<Token>)
        requires
            old(self).wf(),
        ensures
            final(self).wf(),
            final(self).text() == old(self).text(),
            ({
                let s = old(self).text();
                let j = skip_spaces(s, old(self).position());
                match r {
                    Some(t) => j < s.len() && t@ == token_at(s, j).0 && final(self).position()
                        == token_at(s, j).1,
                    None => j == s.len() && final(self).position() == s.len(),
                }
            }),
    {
        let ghost s = self.input@;
        let ghost p0 = self.pos as int;
        loop
            invariant
                self.wf(),
                self.input@ == s,
                p0 <= self.pos as int,
                run_end(s, self.pos as int, space_pred()) == run_end(s, p0, space_pred()),
            ensures
                self.wf(),
                self.input@ == s,
                p0 <= self.pos as int,
                self.pos as int == skip_spaces(s, p0),
                self.pos as int == s.len() || !whitespace_char(s[self.pos as int]),
            decreases s.len() - self.pos,
        {
            match self.peek() {
                Some(c) => {
                    if c.is_whitespace() {
                        let _skipped = self.advance();
                    } else {
                        break;
                    }
                },
                None => {
                    break;
                },
            }
        }
        let ghost j = self.pos as int;
        let c = match self.peek() {
            Some(c) => c,
            None => {
                return None;
            },
        };
        if c == '=' || c == '!' {
            let _lead = self.advance();
            let followed_by_assign = match self.peek() {
                Some(d) => d == '=',
                None => false,
            };
            if followed_by_assign {
                let _trail = self.advance();
                return Some(if c == '=' { Token::Eq } else { Token::NotEq });
            }
            return Some(if c == '=' { Token::Assign } else { Token::Bang });
        }
        match Token::try_from_char(c) {
            Some(t) => {
                let _consumed = self.advance();
                return Some(t);
            },
            None => {},
        }
        if c.is_alphabetic() {
            let start = self.pos;
            let w = self.build_str_while(
                start,
                (|ch: char| -> (r: bool)
                    ensures
                        r == alphabetic_char(ch),
                    { ch.is_alphabetic() }),
                Ghost(letter_pred()),
            );
            return Some(Token::from_string(w.as_str()));
        }
        if c.is_numeric() {
            let start = self.pos;
            let w = self.build_str_while(
                start,
                (|ch: char| -> (r: bool)
                    ensures
                        r == numeric_char(ch),
                    { ch.is_numeric() }),
                Ghost(digit_pred()),
            );
            proof {
                assert(digit_pred()(s[j]));
                assert(run_end(s, j, digit_pred()) == run_end(s, j + 1, digit_pred()));
                lemma_run_end(s, j + 1, digit_pred());
            }
            return Some(parse_int(w.as_str()));
        }
        let _unrecognized = self.advance();
        Some(Token::Illegal("unrecognized character".to_owned()))
    }
}

/// The value of a digit run is never negative.
proof fn lemma_digits_value_nonneg(w: Seq<char>)
    requires
        forall|k: int| 0 <= k < w.len() ==> is_digit_char(w[k]),
    ensures
        digits_value(w) >= 0,
    decreases w.len(),
{
    if w.len() > 0 {
        lemma_digits_value_nonneg(w.drop_last());
    }
}

/// Extending a digit run cannot decrease its value.
proof fn lemma_digits_value_prefix(w: Seq<char>, i: int)
    requires
        forall|k: int| 0 <= k < w.len() ==> is_digit_char(w[k]),
        0 <= i <= w.len(),
    ensures
        digits_value(w.subrange(0, i)) <= digits_value(w),
    decreases w.len() - i,
{
    if i < w.len() {
        assert(w.subrange(0, i + 1).drop_last() =~= w.subrange(0, i));
        lemma_digits_value_nonneg(w.subrange(0, i));
        lemma_digits_value_prefix(w, i + 1);
    } else {
        assert(w.subrange(0, i) =~= w);
    }
}

/// Decodes a completed numeric run: the integer token holding its value when
/// the run is ASCII digits and the value is representable, else an `Illegal`
/// token carrying the matching diagnostic.
fn parse_int(w: &str) -> (t: Token)
    requires
        w@.len() > 0,
    ensures
        t@ == numeric_run_token(w@),
{
    let n = w.unicode_len();
    let mut i: usize = 0;
    while i < n
        invariant
            i <= n,
            n == w@.len(),
            forall|k: int| 0 <= k < i ==> is_digit_char(w@[k]),
        decreases n - i,
    {
        let c = w.get_char(i);
        let u = c as u32;
        if u < 48 || u > 57 {
            return Token::Illegal("invalid digit in integer literal".to_owned());
        }
        i = i + 1;
    }
    let mut acc: u64 = 0;
    i = 0;
    while i < n
        invariant
            i <= n,
            n == w@.len(),
            forall|k: int| 0 <= k < w@.len() ==> is_digit_char(w@[k]),
            acc as int == digits_value(w@.subrange(0, i as int)),
            acc <= 2147483647u64,
        decreases n - i,
    {
        let c = w.get_char(i);
        let u = c as u32;
        let d = (u - 48) as u64;
        let next = acc * 10 + d;
        proof {
            assert(w@.subrange(0, i as int + 1).drop_last() =~= w@.subrange(0, i as int));
        }
        if next > 2147483647u64 {
            proof {
                lemma_digits_value_prefix(w@, i as int + 1);
            }
            return Token::Illegal("integer literal out of range".to_owned());
        }
        acc = next;
        i = i + 1;
    }
    proof {
        assert(w@.subrange(0, n as int) =~= w@);
    }
    Token::Int(acc as i32)
}

/// Scans the whole text eagerly: the returned vector holds exactly the token
/// sequence of `input`, in source order.
pub fn tokenize(input: &str) -> (ts: Vec<Token>)
    ensures
        ts@.map_values(|t: Token| t@) == spec_tokens(input@),
{
    let ghost s = input@;
    let mut lx = Lexer::new(input);
    let mut ts: Vec<Token> = Vec::new();
    loop
        invariant
            lx.wf(),
            lx.text() == s,
            s == input@,
            ts@.map_values(|t: Token| t@) + tokens_from(s, lx.position()) == spec_tokens(s),
        ensures
            ts@.map_values(|t: Token| t@) == spec_tokens(s),
        decreases s.len() - lx.position(),
    {
        let ghost p_before = lx.position();
        match lx.next_token() {
            Some(t) => {
                proof {
                    lemma_run_end(s, p_before, space_pred());
                    lemma_token_at_advances(s, skip_spaces(s, p_before));
                    let prev = ts@.map_values(|t2: Token| t2@);
                    assert(ts@.push(t).map_values(|t2: Token| t2@) =~= prev.push(t@));
                    assert(prev.push(t@) + tokens_from(s, lx.position()) =~= prev + tokens_from(
                        s,
                        p_before,
                    ));
                }
                ts.push(t);
            },
            None => {
                proof {
                    assert(ts@.map_values(|t2: Token| t2@) + tokens_from(s, p_before) =~= ts@
                        .map_values(|t2: Token| t2@));
                }
                break;
            },
        }
    }
    ts
}

/// Whitespace alone scans to nothing: for a text of whitespace characters
/// (the empty text included), the token sequence is empty.
pub proof fn lemma_all_whitespace_scans_empty(s: Seq<char>)
    requires
        forall|k: int| 0 <= k < s.len() ==> whitespace_char(s[k]),
    ensures
        spec_tokens(s) == Seq::<TokenModel>::empty(),
{
    lemma_run_end(s, 0, space_pred());
    assert(skip_spaces(s, 0) == s.len());
}

/// A text that is one run of letters scans to exactly one token: the keyword
/// token on an exact keyword match, else an identifier holding the run. No
/// character is both alphabetic and whitespace, but the two classes are
/// opaque beyond ASCII here, so the law states that of the run's first
/// character.
pub proof fn lemma_letter_run_scans_to_word(s: Seq<char>)
    requires
        s.len() > 0,
        forall|k: int| 0 <= k < s.len() ==> alphabetic_char(s[k]),
        !whitespace_char(s[0]),
    ensures
        spec_tokens(s) == seq![word_token(s)],
        spec_keyword(s) is None ==> spec_tokens(s) == seq![TokenModel::Identifier(s)],
{
    assert(skip_spaces(s, 0) == 0);
    lemma_run_end(s, 0, letter_pred());
    assert(run_end(s, 0, letter_pred()) == s.len());
    assert(s.subrange(0, s.len() as int) =~= s);
    assert(single_char_token(s[0]) is None);
    assert(token_at(s, 0) == (word_token(s), s.len() as int));
    assert(skip_spaces(s, s.len() as int) == s.len());
    assert(tokens_from(s, s.len() as int) =~= Seq::<TokenModel>::empty());
    assert(spec_tokens(s) =~= seq![word_token(s)]);
}

/// A text that is one run of ASCII digits scans to exactly one token: the
/// decoded integer when its value is representable, else the out-of-range
/// `Illegal` token.
pub proof fn lemma_digit_run_scans_to_int(s: Seq<char>)
    requires
        s.len() > 0,
        forall|k: int| 0 <= k < s.len() ==> is_digit_char(s[k]),
    ensures
        spec_tokens(s) == seq![int_token(digits_value(s))],
{
    assert(!whitespace_char(s[0]));
    assert(skip_spaces(s, 0) == 0);
    lemma_run_end(s, 0, digit_pred());
    assert(run_end(s, 0, digit_pred()) == s.len());
    assert(s.subrange(0, s.len() as int) =~= s);
    assert(single_char_token(s[0]) is None);
    assert(numeric_run_token(s) == int_token(digits_value(s)));
    assert(token_at(s, 0) == (int_token(digits_value(s)), s.len() as int));
    assert(skip_spaces(s, s.len() as int) == s.len());
    assert(tokens_from(s, s.len() as int) =~= Seq::<TokenModel>::empty());
    assert(spec_tokens(s) =~= seq![int_token(digits_value(s))]);
}

/// Scanning is a pure function of the text: two independent sessions over the
/// same text yield the same token sequence.
pub proof fn lemma_rescan_yields_same_tokens(a: Lexer, b: Lexer)
    requires
        a.text() == b.text(),
    ensures
        spec_tokens(a.text()) == spec_tokens(b.text()),
{
}

} // verus!
