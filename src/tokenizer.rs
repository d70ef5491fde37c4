use vstd::prelude::*;
use crate::lexicon::{fold, fold_case, keyword_of, keyword_spelling, same_ignoring_case, spelling};
use crate::token::{Keyword, Token, TokenView};

verus! {

pub open spec fn is_space(c: char) -> bool {
    c == ' ' || c == '\n' || c == '\t' || c == '\r'
}

pub open spec fn is_digit(c: char) -> bool {
    '0' <= c && c <= '9'
}

pub open spec fn is_letter(c: char) -> bool {
    ('a' <= c && c <= 'z') || ('A' <= c && c <= 'Z')
}

pub open spec fn is_word_char(c: char) -> bool {
    is_letter(c) || is_digit(c) || c == '_'
}

/// The first position at or after `i` that holds no whitespace.
pub open spec fn skip_spaces(s: Seq<char>, i: int) -> int
    decreases s.len() - i,
{
    if 0 <= i < s.len() && is_space(s[i]) {
        skip_spaces(s, i + 1)
    } else {
        i
    }
}

/// The end of the run of digits that starts at `i`.
pub open spec fn digits_end(s: Seq<char>, i: int) -> int
    decreases s.len() - i,
{
    if 0 <= i < s.len() && is_digit(s[i]) {
        digits_end(s, i + 1)
    } else {
        i
    }
}

/// The end of the run of letters, digits and underscores that starts at `i`.
pub open spec fn word_end(s: Seq<char>, i: int) -> int
    decreases s.len() - i,
{
    if 0 <= i < s.len() && is_word_char(s[i]) {
        word_end(s, i + 1)
    } else {
        i
    }
}

/// The first position at or after `i` that holds `q`, or the length if none does.
pub open spec fn quote_end(s: Seq<char>, i: int, q: char) -> int
    decreases s.len() - i,
{
    if 0 <= i < s.len() && s[i] != q {
        quote_end(s, i + 1, q)
    } else {
        i
    }
}

pub open spec fn digit_value(c: char) -> int {
    c as u32 as int - '0' as u32 as int
}

/// The decimal value of a run of digits.
pub open spec fn digits_value(d: Seq<char>) -> int
    decreases d.len(),
{
    if d.len() == 0 {
        0
    } else {
        digits_value(d.drop_last()) * 10 + digit_value(d.last())
    }
}

/// The token for a word: its keyword, or an identifier that keeps the word's case.
pub open spec fn word_token(w: Seq<char>) -> TokenView {
    match keyword_of(w) {
        Some(k) => TokenView::Keyword(k),
        None => TokenView::Identifier(w),
    }
}

/// The token that starts at the first non-blank position from `p` on, with the position after it.
pub open spec fn scan_at(s: Seq<char>, p: int) -> (TokenView, int) {
    let c = s[p];
    let next_is_eq = p + 1 < s.len() && s[p + 1] == '=';
    if c == '+' {
        (TokenView::Plus, p + 1)
    } else if c == '-' {
        (TokenView::Minus, p + 1)
    } else if c == '*' {
        (TokenView::Star, p + 1)
    } else if c == '/' {
        (TokenView::Divide, p + 1)
    } else if c == '(' {
        (TokenView::LeftParentheses, p + 1)
    } else if c == ')' {
        (TokenView::RightParentheses, p + 1)
    } else if c == ',' {
        (TokenView::Comma, p + 1)
    } else if c == ';' {
        (TokenView::Semicolon, p + 1)
    } else if c == '=' {
        (TokenView::Equal, p + 1)
    } else if c == '>' {
        if next_is_eq {
            (TokenView::GreaterThanOrEqual, p + 2)
        } else {
            (TokenView::GreaterThan, p + 1)
        }
    } else if c == '<' {
        if next_is_eq {
            (TokenView::LessThanOrEqual, p + 2)
        } else if p + 1 < s.len() && s[p + 1] == '>' {
            (TokenView::NotEqual, p + 2)
        } else {
            (TokenView::LessThan, p + 1)
        }
    } else if c == '!' {
        if next_is_eq {
            (TokenView::NotEqual, p + 2)
        } else {
            (TokenView::Invalid('!'), p + 1)
        }
    } else if c == '"' || c == '\'' {
        let e = quote_end(s, p + 1, c);
        if e < s.len() {
            (TokenView::String(s.subrange(p + 1, e)), e + 1)
        } else {
            (TokenView::Invalid(c), e)
        }
    } else if is_digit(c) {
        let e = digits_end(s, p);
        let v = digits_value(s.subrange(p, e));
        if v <= u64::MAX {
            (TokenView::Number(v as u64), e)
        } else {
            (TokenView::NumberTooLarge, e)
        }
    } else if is_letter(c) || c == '_' {
        let e = word_end(s, p);
        (word_token(s.subrange(p, e)), e)
    } else {
        (TokenView::Invalid(c), p + 1)
    }
}

/// The next token of `s` from position `i` on, with the position after it;
/// `Eof` once only whitespace is left.
pub open spec fn scan(s: Seq<char>, i: int) -> (TokenView, int) {
    let p = skip_spaces(s, i);
    if p < 0 || p >= s.len() {
        (TokenView::Eof, p)
    } else {
        scan_at(s, p)
    }
}

/// All tokens of `s` from position `i` on, in order.
pub open spec fn tokens_from(s: Seq<char>, i: int) -> Seq<TokenView>
    decreases s.len() - i,
{
    let (t, j) = scan(s, i);
    if t is Eof || j <= i || j > s.len() {
        Seq::empty()
    } else {
        seq![t] + tokens_from(s, j)
    }
}

/// The tokens of a whole text.
pub open spec fn tokens_of(s: Seq<char>) -> Seq<TokenView> {
    tokens_from(s, 0)
}

proof fn lemma_skip_spaces(s: Seq<char>, i: int)
    requires
        0 <= i <= s.len(),
    ensures
        i <= skip_spaces(s, i) <= s.len(),
        skip_spaces(s, i) < s.len() ==> !is_space(s[skip_spaces(s, i)]),
        forall|k: int| i <= k < skip_spaces(s, i) ==> is_space(#[trigger] s[k]),
    decreases s.len() - i,
{
    if i < s.len() && is_space(s[i]) {
        lemma_skip_spaces(s, i + 1);
    }
}

proof fn lemma_digits_end(s: Seq<char>, i: int)
    requires
        0 <= i <= s.len(),
    ensures
        i <= digits_end(s, i) <= s.len(),
    decreases s.len() - i,
{
    if i < s.len() && is_digit(s[i]) {
        lemma_digits_end(s, i + 1);
    }
}

proof fn lemma_word_end(s: Seq<char>, i: int)
    requires
        0 <= i <= s.len(),
    ensures
        i <= word_end(s, i) <= s.len(),
    decreases s.len() - i,
{
    if i < s.len() && is_word_char(s[i]) {
        lemma_word_end(s, i + 1);
    }
}

proof fn lemma_quote_end(s: Seq<char>, i: int, q: char)
    requires
        0 <= i <= s.len(),
    ensures
        i <= quote_end(s, i, q) <= s.len(),
    decreases s.len() - i,
{
    if i < s.len() && s[i] != q {
        lemma_quote_end(s, i + 1, q);
    }
}

/// Every token but `Eof` is read from a non-empty stretch of the text.
pub proof fn lemma_scan_advances(s: Seq<char>, i: int)
    requires
        0 <= i <= s.len(),
    ensures
        i <= scan(s, i).1 <= s.len(),
        !(scan(s, i).0 is Eof) ==> i < scan(s, i).1,
{
    let p = skip_spaces(s, i);
    lemma_skip_spaces(s, i);
    if p < s.len() {
        let c = s[p];
        lemma_quote_end(s, p + 1, c);
        lemma_digits_end(s, p);
        lemma_word_end(s, p);
        if is_digit(c) {
            assert(digits_end(s, p) == digits_end(s, p + 1));
            lemma_digits_end(s, p + 1);
        }
        if is_letter(c) || c == '_' {
            assert(word_end(s, p) == word_end(s, p + 1));
            lemma_word_end(s, p + 1);
        }
    }
}

/// A character that is neither whitespace nor the start of any token but `Invalid`.
pub open spec fn is_stray(c: char) -> bool {
    &&& !is_space(c)
    &&& !is_digit(c)
    &&& !is_letter(c)
    &&& c != '_' && c != '"' && c != '\'' && c != '!'
    &&& c != '+' && c != '-' && c != '*' && c != '/' && c != '(' && c != ')'
    &&& c != ',' && c != ';' && c != '=' && c != '<' && c != '>'
}

proof fn lemma_stray_from(s: Seq<char>, i: int)
    requires
        0 <= i <= s.len(),
        forall|k: int| 0 <= k < s.len() ==> is_space(#[trigger] s[k]) || is_stray(s[k]),
    ensures
        forall|j: int|
            0 <= j < tokens_from(s, i).len() ==> #[trigger] tokens_from(s, i)[j] is Invalid,
    decreases s.len() - i,
{
    let p = skip_spaces(s, i);
    lemma_skip_spaces(s, i);
    if p < s.len() {
        assert(is_stray(s[p]));
        assert(scan(s, i) == (TokenView::Invalid(s[p]), p + 1));
        lemma_stray_from(s, p + 1);
        let rest = tokens_from(s, p + 1);
        assert(tokens_from(s, i) == seq![TokenView::Invalid(s[p])] + rest);
        assert forall|j: int| 0 <= j < tokens_from(s, i).len() implies #[trigger] tokens_from(
            s,
            i,
        )[j] is Invalid by {
            if j > 0 {
                assert(tokens_from(s, i)[j] == rest[j - 1]);
            }
        }
    }
}

/// A text made only of whitespace and characters that start no token scans to
/// `Invalid` tokens alone.
pub proof fn lemma_stray_text_is_invalid(s: Seq<char>)
    requires
        forall|k: int| 0 <= k < s.len() ==> is_space(#[trigger] s[k]) || is_stray(s[k]),
    ensures
        forall|j: int| 0 <= j < tokens_of(s).len() ==> #[trigger] tokens_of(s)[j] is Invalid,
{
    lemma_stray_from(s, 0);
}

proof fn lemma_word_end_all(s: Seq<char>, i: int)
    requires
        0 <= i <= s.len(),
        forall|k: int| 0 <= k < s.len() ==> is_word_char(#[trigger] s[k]),
    ensures
        word_end(s, i) == s.len(),
    decreases s.len() - i,
{
    if i < s.len() {
        lemma_word_end_all(s, i + 1);
    }
}

/// A text that is one word scans to the single token for that word.
pub proof fn lemma_word_text(w: Seq<char>)
    requires
        w.len() > 0,
        is_letter(w[0]) || w[0] == '_',
        forall|k: int| 0 <= k < w.len() ==> is_word_char(#[trigger] w[k]),
    ensures
        tokens_of(w) == seq![word_token(w)],
{
    lemma_word_end_all(w, 0);
    assert(!is_space(w[0]));
    assert(skip_spaces(w, 0) == 0);
    assert(w.subrange(0, w.len() as int) =~= w);
    assert(scan(w, 0) == (word_token(w), w.len() as int));
    assert(tokens_from(w, w.len() as int) =~= Seq::<TokenView>::empty());
    assert(tokens_of(w) =~= seq![word_token(w)]);
}

/// Keywords match whatever the case of their letters: two spellings of one word
/// that differ only in case scan to the same keyword token. A word that is no
/// keyword scans to an identifier that keeps its case exactly.
pub proof fn lemma_keywords_ignore_case(a: Seq<char>, b: Seq<char>)
    requires
        a.len() > 0,
        is_letter(a[0]) || a[0] == '_',
        forall|k: int| 0 <= k < a.len() ==> is_word_char(#[trigger] a[k]),
        b.len() > 0,
        is_letter(b[0]) || b[0] == '_',
        forall|k: int| 0 <= k < b.len() ==> is_word_char(#[trigger] b[k]),
        same_ignoring_case(a, b),
    ensures
        keyword_of(a) is Some ==> tokens_of(a) == tokens_of(b),
        keyword_of(a) is Some ==> tokens_of(a) == seq![TokenView::Keyword(keyword_of(a)->0)],
        keyword_of(a) is None ==> tokens_of(a) == seq![TokenView::Identifier(a)],
        keyword_of(b) is None ==> tokens_of(b) == seq![TokenView::Identifier(b)],
{
    crate::lexicon::lemma_keyword_case_insensitive(a, b);
    lemma_word_text(a);
    lemma_word_text(b);
}

/// A single-pass scanner over a text.
pub struct Tokenizer<'a> {
    text: &'a str,
    len: usize,
    pos: usize,
}

impl<'a> Tokenizer<'a> {
    /// The characters being scanned.
    pub closed spec fn chars(&self) -> Seq<char> {
        self.text@
    }

    /// How many characters have been consumed.
    pub closed spec fn position(&self) -> int {
        self.pos as int
    }

    pub closed spec fn wf(&self) -> bool {
        &&& self.len == self.text@.len()
        &&& self.pos <= self.len
    }

    pub fn new(input: &'a str) -> (r: Self)
        ensures
            r.wf(),
            r.chars() == input@,
            r.position() == 0,
    {
        let len = input.unicode_len();
        Tokenizer { text: input, len, pos: 0 }
    }

    fn at_space(&self) -> (r: bool)
        requires
            self.wf(),
        ensures
            r == (self.pos < self.len && is_space(self.text@[self.pos as int])),
    {
        if self.pos < self.len {
            let c = self.text.get_char(self.pos);
            c == ' ' || c == '\n' || c == '\t' || c == '\r'
        } else {
            false
        }
    }

    fn at_digit(&self) -> (r: bool)
        requires
            self.wf(),
        ensures
            r == (self.pos < self.len && is_digit(self.text@[self.pos as int])),
    {
        if self.pos < self.len {
            let c = self.text.get_char(self.pos);
            '0' <= c && c <= '9'
        } else {
            false
        }
    }

    fn at_word_char(&self) -> (r: bool)
        requires
            self.wf(),
        ensures
            r == (self.pos < self.len && is_word_char(self.text@[self.pos as int])),
    {
        if self.pos < self.len {
            let c = self.text.get_char(self.pos);
            ('a' <= c && c <= 'z') || ('A' <= c && c <= 'Z') || ('0' <= c && c <= '9') || c == '_'
        } else {
            false
        }
    }

    fn char_at(&self, i: usize) -> (r: Option<char>)
        requires
            self.wf(),
        ensures
            r == (if i < self.len {
                Some(self.text@[i as int])
            } else {
                None::<char>
            }),
    {
        if i < self.len {
            Some(self.text.get_char(i))
        } else {
            None
        }
    }

    /// Scans and returns the next token, `Eof` once the text is used up.
    pub fn next_token(&mut self) -> (t: Token)
        requires
            old(self).wf(),
        ensures
            final(self).wf(),
            final(self).chars() == old(self).chars(),
            (t@, final(self).position()) == scan(old(self).chars(), old(self).position()),
    {
        let ghost s = self.text@;
        let ghost i0 = self.pos as int;
        proof {
            lemma_skip_spaces(s, i0);
        }
        while self.at_space()
            invariant
                self.wf(),
                self.text == old(self).text,
                self.text@ == s,
                i0 <= self.pos,
                skip_spaces(s, self.pos as int) == skip_spaces(s, i0),
            decreases self.len - self.pos,
        {
            self.pos = self.pos + 1;
        }
        if self.pos >= self.len {
            return Token::Eof;
        }
        let c = self.text.get_char(self.pos);
        if c == '+' {
            self.consume_single(Token::Plus)
        } else if c == '-' {
            self.consume_single(Token::Minus)
        } else if c == '*' {
            self.consume_single(Token::Star)
        } else if c == '/' {
            self.consume_single(Token::Divide)
        } else if c == '(' {
            self.consume_single(Token::LeftParentheses)
        } else if c == ')' {
            self.consume_single(Token::RightParentheses)
        } else if c == ',' {
            self.consume_single(Token::Comma)
        } else if c == ';' {
            self.consume_single(Token::Semicolon)
        } else if c == '=' {
            self.consume_single(Token::Equal)
        } else if c == '>' {
            self.pos = self.pos + 1;
            if self.consume_if('=') {
                Token::GreaterThanOrEqual
            } else {
                Token::GreaterThan
            }
        } else if c == '<' {
            self.pos = self.pos + 1;
            if self.consume_if('=') {
                Token::LessThanOrEqual
            } else if self.consume_if('>') {
                Token::NotEqual
            } else {
                Token::LessThan
            }
        } else if c == '!' {
            self.pos = self.pos + 1;
            if self.consume_if('=') {
                Token::NotEqual
            } else {
                Token::Invalid('!')
            }
        } else if c == '"' || c == '\'' {
            self.read_string()
        } else if '0' <= c && c <= '9' {
            self.read_number()
        } else if ('a' <= c && c <= 'z') || ('A' <= c && c <= 'Z') || c == '_' {
            self.read_word()
        } else {
            self.pos = self.pos + 1;
            Token::Invalid(c)
        }
    }

    /// Consumes one character and returns `token`.
    fn consume_single(&mut self, token: Token) -> (r: Token)
        requires
            old(self).wf(),
            old(self).pos < old(self).len,
        ensures
            final(self).wf(),
            final(self).text == old(self).text,
            final(self).pos == old(self).pos + 1,
            r == token,
    {
        self.pos = self.pos + 1;
        token
    }

    /// Consumes the next character if it is `expected`.
    fn consume_if(&mut self, expected: char) -> (r: bool)
        requires
            old(self).wf(),
        ensures
            final(self).wf(),
            final(self).text == old(self).text,
            r == (old(self).pos < old(self).len && old(self).text@[old(self).pos as int]
                == expected),
            final(self).pos == if r {
                old(self).pos + 1
            } else {
                old(self).pos as int
            },
    {
        match self.char_at(self.pos) {
            Some(c) => {
                if c == expected {
                    self.pos = self.pos + 1;
                    true
                } else {
                    false
                }
            },
            None => false,
        }
    }

    /// Reads a maximal run of digits as a number.
    fn read_number(&mut self) -> (t: Token)
        requires
            old(self).wf(),
            old(self).pos < old(self).len,
            is_digit(old(self).text@[old(self).pos as int]),
        ensures
            final(self).wf(),
            final(self).text == old(self).text,
            (t@, final(self).pos as int) == scan_at(old(self).text@, old(self).pos as int),
    {
        let ghost s = self.text@;
        let start = self.pos;
        let mut value: u64 = 0;
        let mut too_large = false;
        while self.at_digit()
            invariant
                self.wf(),
                self.text == old(self).text,
                self.text@ == s,
                start <= self.pos,
                digits_end(s, self.pos as int) == digits_end(s, start as int),
                !too_large ==> value == digits_value(s.subrange(start as int, self.pos as int)),
                too_large ==> digits_value(s.subrange(start as int, self.pos as int)) > u64::MAX,
            decreases self.len - self.pos,
        {
            let c = self.text.get_char(self.pos);
            let ghost before = s.subrange(start as int, self.pos as int);
            let ghost after = s.subrange(start as int, self.pos + 1);
            assert(after.drop_last() =~= before);
            assert(after.last() == c);
            let wide: u128 = value as u128 * 10 + (c as u32 - '0' as u32) as u128;
            if too_large || wide > u64::MAX as u128 {
                too_large = true;
            } else {
                value = wide as u64;
            }
            self.pos = self.pos + 1;
        }
        if too_large {
            Token::NumberTooLarge
        } else {
            Token::Number(value)
        }
    }

    /// Reads a literal between matching quotes; an unterminated one gives
    /// `Invalid` with the opening quote.
    fn read_string(&mut self) -> (t: Token)
        requires
            old(self).wf(),
            old(self).pos < old(self).len,
            old(self).text@[old(self).pos as int] == '"' || old(self).text@[old(self).pos as int]
                == '\'',
        ensures
            final(self).wf(),
            final(self).text == old(self).text,
            (t@, final(self).pos as int) == scan_at(old(self).text@, old(self).pos as int),
    {
        let ghost s = self.text@;
        let ghost p0 = self.pos as int;
        let quote = self.text.get_char(self.pos);
        self.pos = self.pos + 1;
        let start = self.pos;
        while self.pos < self.len
            invariant
                self.wf(),
                self.text == old(self).text,
                self.text@ == s,
                start <= self.pos,
                quote_end(s, self.pos as int, quote) == quote_end(s, start as int, quote),
                start == p0 + 1,
                p0 == old(self).pos,
                s[p0] == quote,
                quote == '"' || quote == '\'',
            decreases self.len - self.pos,
        {
            let c = self.text.get_char(self.pos);
            if c == quote {
                let content = self.text.substring_char(start, self.pos).to_owned();
                assert(quote_end(s, self.pos as int, quote) == self.pos);
                assert(content@ == s.subrange(start as int, self.pos as int));
                self.pos = self.pos + 1;
                return Token::String(content);
            }
            self.pos = self.pos + 1;
        }
        Token::Invalid(quote)
    }

    /// Whether the characters in `start..end` spell keyword `k`, ignoring case.
    fn spells(&self, start: usize, end: usize, k: Keyword) -> (r: bool)
        requires
            self.wf(),
            start <= end <= self.len,
        ensures
            r == same_ignoring_case(self.text@.subrange(start as int, end as int), spelling(k)),
    {
        let ghost w = self.text@.subrange(start as int, end as int);
        let t = keyword_spelling(k);
        let n = t.unicode_len();
        if end - start != n {
            return false;
        }
        let mut i: usize = 0;
        while i < n
            invariant
                self.wf(),
                start <= end <= self.len,
                w == self.text@.subrange(start as int, end as int),
                end - start == n,
                n == t@.len(),
                t@ == spelling(k),
                i <= n,
                forall|j: int| 0 <= j < i ==> fold(#[trigger] w[j]) == fold(t@[j]),
            decreases n - i,
        {
            if fold_case(self.text.get_char(start + i)) != fold_case(t.get_char(i)) {
                assert(fold(w[i as int]) != fold(t@[i as int]));
                return false;
            }
            i = i + 1;
        }
        true
    }

    /// The keyword spelled by the characters in `start..end`, ignoring case.
    fn keyword_at(&self, start: usize, end: usize) -> (r: Option<Keyword>)
        requires
            self.wf(),
            start <= end <= self.len,
        ensures
            r == keyword_of(self.text@.subrange(start as int, end as int)),
    {
        if self.spells(start, end, Keyword::Select) {
            Some(Keyword::Select)
        } else if self.spells(start, end, Keyword::From) {
            Some(Keyword::From)
        } else if self.spells(start, end, Keyword::Where) {
            Some(Keyword::Where)
        } else if self.spells(start, end, Keyword::Create) {
            Some(Keyword::Create)
        } else if self.spells(start, end, Keyword::Table) {
            Some(Keyword::Table)
        } else if self.spells(start, end, Keyword::Order) {
            Some(Keyword::Order)
        } else if self.spells(start, end, Keyword::By) {
            Some(Keyword::By)
        } else if self.spells(start, end, Keyword::Asc) {
            Some(Keyword::Asc)
        } else if self.spells(start, end, Keyword::Desc) {
            Some(Keyword::Desc)
        } else if self.spells(start, end, Keyword::And) {
            Some(Keyword::And)
        } else if self.spells(start, end, Keyword::Or) {
            Some(Keyword::Or)
        } else if self.spells(start, end, Keyword::Not) {
            Some(Keyword::Not)
        } else if self.spells(start, end, Keyword::True) {
            Some(Keyword::True)
        } else if self.spells(start, end, Keyword::False) {
            Some(Keyword::False)
        } else if self.spells(start, end, Keyword::Primary) {
            Some(Keyword::Primary)
        } else if self.spells(start, end, Keyword::Key) {
            Some(Keyword::Key)
        } else if self.spells(start, end, Keyword::Check) {
            Some(Keyword::Check)
        } else if self.spells(start, end, Keyword::Int) {
            Some(Keyword::Int)
        } else if self.spells(start, end, Keyword::Bool) {
            Some(Keyword::Bool)
        } else if self.spells(start, end, Keyword::Varchar) {
            Some(Keyword::Varchar)
        } else if self.spells(start, end, Keyword::Null) {
            Some(Keyword::Null)
        } else {
            None
        }
    }

    /// Reads a maximal run of letters, digits and underscores as a keyword or an identifier.
    fn read_word(&mut self) -> (t: Token)
        requires
            old(self).wf(),
            old(self).pos < old(self).len,
            is_letter(old(self).text@[old(self).pos as int]) || old(self).text@[old(self).pos as int]
                == '_',
        ensures
            final(self).wf(),
            final(self).text == old(self).text,
            (t@, final(self).pos as int) == scan_at(old(self).text@, old(self).pos as int),
    {
        let ghost s = self.text@;
        let start = self.pos;
        while self.at_word_char()
            invariant
                self.wf(),
                self.text == old(self).text,
                self.text@ == s,
                start <= self.pos,
                word_end(s, self.pos as int) == word_end(s, start as int),
            decreases self.len - self.pos,
        {
            self.pos = self.pos + 1;
        }
        match self.keyword_at(start, self.pos) {
            Some(k) => Token::Keyword(k),
            None => Token::Identifier(self.text.substring_char(start, self.pos).to_owned()),
        }
    }
}

/// Scans a whole text into its tokens, in order, without the end marker.
pub fn tokenize(text: &str) -> (r: Vec<Token>)
    ensures
        r@.map_values(|t: Token| t@) == tokens_of(text@),
{
    let mut tokenizer = Tokenizer::new(text);
    let mut out: Vec<Token> = Vec::new();
    loop
        invariant
            tokenizer.wf(),
            tokenizer.chars() == text@,
            0 <= tokenizer.position() <= text@.len(),
            out@.map_values(|t: Token| t@) + tokens_from(text@, tokenizer.position()) == tokens_of(
                text@,
            ),
        decreases text@.len() - tokenizer.position(),
    {
        let ghost before = tokenizer.position();
        proof {
            lemma_scan_advances(text@, before);
        }
        let t = tokenizer.next_token();
        if let Token::Eof = t {
            return out;
        }
        let ghost tv = t@;
        out.push(t);
        proof {
            assert(tokens_from(text@, before) == seq![tv] + tokens_from(text@, tokenizer.position()));
            assert(out@.map_values(|t: Token| t@) =~= out@.drop_last().map_values(|t: Token| t@).push(tv));
        }
    }
}

} // verus!
