//! Tokenizer of the postfix expression notation: numbers (an optional leading
//! `-` followed by digits and dots) and single-byte operators, separated by
//! optional ASCII whitespace.

use vstd::prelude::*;
use vstd::slice::slice_subrange;

verus! {

/// A byte that may continue a number: an ASCII digit or a dot.
pub open spec fn is_num_byte(c: u8) -> bool {
    (48u8 <= c && c <= 57u8) || c == 46u8
}

/// ASCII whitespace as `u8::is_ascii_whitespace` defines it: space, tab,
/// line feed, form feed and carriage return.
pub open spec fn is_space_byte(c: u8) -> bool {
    c == 32u8 || c == 9u8 || c == 10u8 || c == 12u8 || c == 13u8
}

/// `s` with its leading whitespace removed.
pub open spec fn skip_space(s: Seq<u8>) -> Seq<u8>
    decreases s.len(),
{
    if s.len() > 0 && is_space_byte(s[0]) {
        skip_space(s.subrange(1, s.len() as int))
    } else {
        s
    }
}

/// The first index at or after `i` that does not hold a number byte.
pub open spec fn num_run_end(s: Seq<u8>, i: int) -> int
    decreases s.len() - i,
{
    if 0 <= i < s.len() && is_num_byte(s[i]) {
        num_run_end(s, i + 1)
    } else {
        i
    }
}

/// Whether `s[i]` exists and is a number byte.
pub open spec fn num_at(s: Seq<u8>, i: int) -> bool {
    0 <= i < s.len() && is_num_byte(s[i])
}

/// Whether `s` starts a number: a number byte, or `-` followed by one.
pub open spec fn starts_number(s: Seq<u8>) -> bool {
    num_at(s, 0) || (s.len() > 0 && s[0] == 45u8 && num_at(s, 1))
}

/// The length of the token at the start of `s`, which has no leading
/// whitespace and is not empty.
pub open spec fn token_len(s: Seq<u8>) -> int {
    if starts_number(s) {
        num_run_end(s, if s[0] == 45u8 { 1 } else { 0 })
    } else {
        1
    }
}

/// The next token of `s` and what follows it, or `None` where only
/// whitespace is left.
pub open spec fn split_token(s: Seq<u8>) -> Option<(Seq<u8>, Seq<u8>)> {
    let t = skip_space(s);
    if t.len() == 0 {
        None
    } else {
        Some((t.subrange(0, token_len(t)), t.subrange(token_len(t), t.len() as int)))
    }
}

/// All the tokens of `s`, in order.
pub open spec fn tokens_of(s: Seq<u8>) -> Seq<Seq<u8>>
    decreases s.len(),
{
    match split_token(s) {
        None => Seq::empty(),
        Some((tok, rest)) => {
            if rest.len() < s.len() {
                seq![tok].add(tokens_of(rest))
            } else {
                Seq::empty()
            }
        },
    }
}

proof fn lemma_num_run_end_bounds(s: Seq<u8>, i: int)
    requires
        0 <= i <= s.len(),
    ensures
        i <= num_run_end(s, i) <= s.len(),
        forall|k: int| i <= k < num_run_end(s, i) ==> is_num_byte(s[k]),
    decreases s.len() - i,
{
    if i < s.len() && is_num_byte(s[i]) {
        lemma_num_run_end_bounds(s, i + 1);
    }
}

proof fn lemma_skip_space_suffix(s: Seq<u8>)
    ensures
        skip_space(s).len() <= s.len(),
        skip_space(s) == s.subrange(s.len() - skip_space(s).len(), s.len() as int),
        skip_space(s).len() > 0 ==> !is_space_byte(skip_space(s)[0]),
    decreases s.len(),
{
    if s.len() > 0 && is_space_byte(s[0]) {
        let r = s.subrange(1, s.len() as int);
        lemma_skip_space_suffix(r);
        assert(skip_space(s) == s.subrange(s.len() - skip_space(s).len(), s.len() as int));
    } else {
        assert(s == s.subrange(0, s.len() as int));
    }
}

proof fn lemma_token_len_bounds(t: Seq<u8>)
    requires
        t.len() > 0,
    ensures
        1 <= token_len(t) <= t.len(),
{
    if starts_number(t) {
        let start: int = if t[0] == 45u8 { 1 } else { 0 };
        lemma_num_run_end_bounds(t, start + 1);
        assert(num_run_end(t, start) == num_run_end(t, start + 1));
    }
}

proof fn lemma_split_shrinks(s: Seq<u8>)
    ensures
        split_token(s) matches Some((tok, rest)) ==> rest.len() < s.len(),
        split_token(s) is None ==> tokens_of(s) == Seq::<Seq<u8>>::empty(),
{
    lemma_skip_space_suffix(s);
    let t = skip_space(s);
    if t.len() > 0 {
        lemma_token_len_bounds(t);
    }
}

/// `s` without each dot that follows an earlier one (an earlier one in `s`,
/// or any where `seen` holds).
pub open spec fn without_extra_dots(s: Seq<u8>, seen: bool) -> Seq<u8>
    decreases s.len(),
{
    if s.len() == 0 {
        s
    } else {
        let rest = without_extra_dots(s.subrange(1, s.len() as int), seen || s[0] == 46u8);
        if s[0] == 46u8 && seen {
            rest
        } else {
            seq![s[0]].add(rest)
        }
    }
}

/// All the tokens of `expr`, in order.
pub fn tokenize<'a>(expr: &'a [u8]) -> (r: Vec<&'a [u8]>)
    ensures
        r@.len() == tokens_of(expr@).len(),
        forall|i: int| 0 <= i < r@.len() ==> (#[trigger] r@[i])@ == tokens_of(expr@)[i],
{
    let mut tk = Tokenizer::new(expr);
    let mut r: Vec<&'a [u8]> = Vec::new();
    let mut done = false;
    let ghost mut acc: Seq<Seq<u8>> = Seq::empty();
    while !done
        invariant
            done ==> tokens_of(tk@) == Seq::<Seq<u8>>::empty(),
            r@.len() == acc.len(),
            forall|i: int| 0 <= i < r@.len() ==> (#[trigger] r@[i])@ == acc[i],
            acc + tokens_of(tk@) == tokens_of(expr@),
        decreases tk@.len() + if done { 0int } else { 1int },
    {
        let ghost before = tk@;
        proof {
            lemma_split_shrinks(before);
        }
        match tk.next() {
            None => {
                done = true;
            },
            Some(tok) => {
                proof {
                    assert(tokens_of(before) == seq![tok@].add(tokens_of(tk@)));
                    assert(acc.push(tok@) + tokens_of(tk@) =~= acc + tokens_of(before));
                    acc = acc.push(tok@);
                }
                r.push(tok);
            },
        }
    }
    proof {
        assert(acc + Seq::<Seq<u8>>::empty() =~= acc);
    }
    r
}

/// The bytes of a number token with every dot after the first removed.
pub fn drop_extra_dots(token: &[u8]) -> (r: Vec<u8>)
    ensures
        r@ == without_extra_dots(token@, false),
{
    let n = token.len();
    let mut r: Vec<u8> = Vec::new();
    let mut seen = false;
    let mut i: usize = 0;
    proof {
        assert(token@.subrange(0, n as int) =~= token@);
        assert(r@ + without_extra_dots(token@, false) =~= without_extra_dots(token@, false));
    }
    while i < n
        invariant
            n == token@.len(),
            i <= n,
            r@ + without_extra_dots(token@.subrange(i as int, n as int), seen) == without_extra_dots(token@, false),
        decreases n - i,
    {
        let c = token[i];
        let ghost tail = token@.subrange(i as int, n as int);
        assert(tail.subrange(1, tail.len() as int) =~= token@.subrange(i + 1, n as int));
        if c == 46u8 && seen {
        } else {
            proof {
                assert(r@.push(c) + without_extra_dots(token@.subrange(i + 1, n as int), seen || c == 46u8) =~= r@
                    + without_extra_dots(tail, seen));
            }
            r.push(c);
        }
        if c == 46u8 {
            seen = true;
        }
        i += 1;
    }
    proof {
        assert(token@.subrange(n as int, n as int) =~= Seq::<u8>::empty());
        assert(r@ + Seq::<u8>::empty() =~= r@);
    }
    r
}

/// Whether a number text is a lone dot, or a minus sign and a dot, which
/// read as zero.
pub fn is_bare_dot(text: &[u8]) -> (r: bool)
    ensures
        r == (text@ == seq![46u8] || text@ == seq![45u8, 46u8]),
{
    let r = (text.len() == 1 && text[0] == 46u8) || (text.len() == 2 && text[0] == 45u8 && text[1] == 46u8);
    proof {
        if text@.len() == 1 && text@[0] == 46u8 {
            assert(text@ =~= seq![46u8]);
        }
        if text@.len() == 2 && text@[0] == 45u8 && text@[1] == 46u8 {
            assert(text@ =~= seq![45u8, 46u8]);
        }
    }
    r
}

/// A cursor over the bytes of an expression that have not been read yet.
pub struct Tokenizer<'a>(&'a [u8]);

impl<'a> View for Tokenizer<'a> {
    type V = Seq<u8>;

    closed spec fn view(&self) -> Seq<u8> {
        self.0@
    }
}

impl<'a> Tokenizer<'a> {
    /// A cursor at the start of `expr`.
    pub fn new(expr: &'a [u8]) -> (r: Self)
        ensures
            r@ == expr@,
    {
        Tokenizer(expr)
    }

    /// Whether the byte at `i` exists and may be part of a number.
    pub fn is_num(&self, i: usize) -> (r: bool)
        ensures
            r == num_at(self@, i as int),
    {
        if i >= self.0.len() {
            return false;
        }
        let c = self.0[i];
        (48u8 <= c && c <= 57u8) || c == 46u8
    }

    /// Whether the byte at `i` exists and equals `c`.
    pub fn is_char(&self, i: usize, c: u8) -> (r: bool)
        ensures
            r == (i < self@.len() && self@[i as int] == c),
    {
        if i >= self.0.len() {
            return false;
        }
        self.0[i] == c
    }

    /// Hands out the next `by` bytes and moves past them.
    pub fn advance(&mut self, by: usize) -> (r: &'a [u8])
        requires
            by <= old(self)@.len(),
        ensures
            r@ == old(self)@.subrange(0, by as int),
            final(self)@ == old(self)@.subrange(by as int, old(self)@.len() as int),
    {
        let len = self.0.len();
        let ret = slice_subrange(self.0, 0, by);
        self.0 = slice_subrange(self.0, by, len);
        ret
    }

    /// The next token, or `None` where only whitespace is left.
    pub fn next(&mut self) -> (r: Option<&'a [u8]>)
        ensures
            match r {
                None => split_token(old(self)@) is None && final(self)@.len() == 0,
                Some(tok) => split_token(old(self)@) == Some((tok@, final(self)@)),
            },
    {
        proof {
            lemma_skip_space_suffix(self@);
        }
        let ghost start = self@;
        while self.0.len() > 0 && is_space(self.0[0])
            invariant
                skip_space(self@) == skip_space(start),
            decreases self@.len(),
        {
            self.advance(1);
        }
        proof {
            lemma_skip_space_suffix(self@);
        }
        if self.0.len() == 0 {
            return None;
        }
        proof {
            lemma_token_len_bounds(self@);
        }
        if !(self.is_num(0) || self.is_char(0, 45u8) && self.is_num(1)) {
            let ret = self.advance(1);
            return Some(ret);
        }
        let mut i: usize = if self.is_char(0, 45u8) { 1 } else { 0 };
        let ghost from = i as int;
        let n = self.0.len();
        proof {
            lemma_num_run_end_bounds(self@, from);
        }
        while self.is_num(i)
            invariant
                from <= i <= self@.len(),
                n == self@.len(),
                num_run_end(self@, i as int) == num_run_end(self@, from),
            decreases self@.len() - i,
        {
            i += 1;
        }
        let ret = self.advance(i);
        Some(ret)
    }
}

fn is_space(c: u8) -> (r: bool)
    ensures
        r == is_space_byte(c),
{
    c == 32u8 || c == 9u8 || c == 10u8 || c == 12u8 || c == 13u8
}

} // verus!
