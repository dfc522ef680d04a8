//! Character-level helpers shared by the instruction codec and the assembler:
//! whitespace tokenizing, decimal integers, and small word comparisons.
use vstd::prelude::*;

verus! {

/// The characters that separate tokens: Unicode `White_Space`, as
/// `char::is_whitespace` documents it.
pub open spec fn is_ws(c: char) -> bool {
    ('\t' <= c && c <= '\r') || c == ' ' || c == '\u{85}' || c == '\u{A0}' || c == '\u{1680}'
        || ('\u{2000}' <= c && c <= '\u{200A}') || c == '\u{2028}' || c == '\u{2029}'
        || c == '\u{202F}' || c == '\u{205F}' || c == '\u{3000}'
}

/// A token: no whitespace inside.
pub open spec fn no_ws(w: Seq<char>) -> bool {
    forall|i: int| 0 <= i < w.len() ==> !is_ws(#[trigger] w[i])
}

/// A token that can stand in a line: non-empty and without whitespace.
pub open spec fn is_word(w: Seq<char>) -> bool {
    w.len() > 0 && no_ws(w)
}

/// One character of the tokenizer: the tokens completed so far, and the token being read.
pub open spec fn tok_step(st: (Seq<Seq<char>>, Seq<char>), c: char) -> (Seq<Seq<char>>, Seq<char>) {
    if is_ws(c) {
        if st.1.len() > 0 {
            (st.0.push(st.1), Seq::empty())
        } else {
            (st.0, Seq::empty())
        }
    } else {
        (st.0, st.1.push(c))
    }
}

/// The tokenizer's state after reading all of `s`.
pub open spec fn tok_scan(s: Seq<char>) -> (Seq<Seq<char>>, Seq<char>)
    decreases s.len(),
{
    if s.len() == 0 {
        (Seq::empty(), Seq::empty())
    } else {
        tok_step(tok_scan(s.drop_last()), s.last())
    }
}

/// The whitespace-separated tokens of `s`, in order.
pub open spec fn split_ws(s: Seq<char>) -> Seq<Seq<char>> {
    let st = tok_scan(s);
    if st.1.len() > 0 {
        st.0.push(st.1)
    } else {
        st.0
    }
}

/// `a`, one space, `b`.
pub open spec fn sp(a: Seq<char>, b: Seq<char>) -> Seq<char> {
    a + seq![' '] + b
}

pub open spec fn views(t: Seq<Vec<char>>) -> Seq<Seq<char>> {
    t.map_values(|v: Vec<char>| v@)
}

proof fn lemma_scan_word(p: Seq<char>, w: Seq<char>)
    requires
        no_ws(w),
    ensures
        tok_scan(p + w) == (tok_scan(p).0, tok_scan(p).1 + w),
    decreases w.len(),
{
    if w.len() == 0 {
        assert(p + w =~= p);
        assert(tok_scan(p).1 + w =~= tok_scan(p).1);
    } else {
        let w0 = w.drop_last();
        assert((p + w).drop_last() =~= p + w0);
        assert(no_ws(w0));
        lemma_scan_word(p, w0);
        assert(!is_ws(w[w.len() - 1]));
        assert((tok_scan(p).1 + w0).push(w.last()) =~= tok_scan(p).1 + w);
    }
}

/// Reading a space and then a word after a pending token completes that token.
pub proof fn lemma_scan_sp(a: Seq<char>, b: Seq<char>)
    requires
        tok_scan(a).1.len() > 0,
        no_ws(b),
    ensures
        tok_scan(sp(a, b)) == (tok_scan(a).0.push(tok_scan(a).1), b),
{
    let p = a + seq![' '];
    assert(p.drop_last() =~= a);
    assert(tok_scan(p) == (tok_scan(a).0.push(tok_scan(a).1), Seq::<char>::empty()));
    lemma_scan_word(p, b);
    assert(Seq::<char>::empty() + b =~= b);
}

/// A single word scans as one pending token.
pub proof fn lemma_scan_single(w: Seq<char>)
    requires
        no_ws(w),
    ensures
        tok_scan(w) == (Seq::<Seq<char>>::empty(), w),
{
    lemma_scan_word(Seq::empty(), w);
    assert(Seq::<char>::empty() + w =~= w);
}

pub fn str_chars(s: &str) -> (r: Vec<char>)
    ensures
        r@ == s@,
{
    let n = s.unicode_len();
    let mut r: Vec<char> = Vec::new();
    let mut i: usize = 0;
    while i < n
        invariant
            n == s@.len(),
            0 <= i <= n,
            r@ == s@.subrange(0, i as int),
        decreases n - i,
    {
        let c = s.get_char(i);
        r.push(c);
        i += 1;
        proof {
            assert(r@ =~= s@.subrange(0, i as int));
        }
    }
    proof {
        assert(r@ =~= s@);
    }
    r
}

pub fn is_ws_char(c: char) -> (r: bool)
    ensures
        r == is_ws(c),
{
    ('\t' <= c && c <= '\r') || c == ' ' || c == '\u{85}' || c == '\u{A0}' || c == '\u{1680}'
        || ('\u{2000}' <= c && c <= '\u{200A}') || c == '\u{2028}' || c == '\u{2029}'
        || c == '\u{202F}' || c == '\u{205F}' || c == '\u{3000}'
}

/// Splits `s` at runs of whitespace.
pub fn split_whitespace(s: &Vec<char>) -> (r: Vec<Vec<char>>)
    ensures
        views(r@) == split_ws(s@),
{
    let mut toks: Vec<Vec<char>> = Vec::new();
    let mut cur: Vec<char> = Vec::new();
    let mut i: usize = 0;
    while i < s.len()
        invariant
            0 <= i <= s@.len(),
            (views(toks@), cur@) == tok_scan(s@.subrange(0, i as int)),
        decreases s@.len() - i,
    {
        let c = s[i];
        proof {
            assert(s@.subrange(0, i + 1).drop_last() =~= s@.subrange(0, i as int));
        }
        if is_ws_char(c) {
            if cur.len() > 0 {
                let ghost before = toks@;
                let done = cur;
                toks.push(done);
                cur = Vec::new();
                proof {
                    assert(views(toks@) =~= views(before).push(done@));
                    assert(cur@ =~= Seq::<char>::empty());
                }
            } else {
                proof {
                    assert(cur@ =~= Seq::<char>::empty());
                }
            }
        } else {
            cur.push(c);
        }
        i += 1;
    }
    proof {
        assert(s@.subrange(0, s@.len() as int) =~= s@);
    }
    if cur.len() > 0 {
        let ghost before = toks@;
        toks.push(cur);
        proof {
            assert(views(toks@) =~= views(before).push(cur@));
        }
    }
    toks
}

pub open spec fn is_digit(c: char) -> bool {
    '0' <= c && c <= '9'
}

pub open spec fn digit_val(c: char) -> int {
    (c as u32) as int - ('0' as u32) as int
}

pub open spec fn digit_char(d: int) -> char {
    if d == 0 { '0' }
    else if d == 1 { '1' }
    else if d == 2 { '2' }
    else if d == 3 { '3' }
    else if d == 4 { '4' }
    else if d == 5 { '5' }
    else if d == 6 { '6' }
    else if d == 7 { '7' }
    else if d == 8 { '8' }
    else { '9' }
}

pub open spec fn all_digits(s: Seq<char>) -> bool {
    forall|i: int| 0 <= i < s.len() ==> is_digit(#[trigger] s[i])
}

/// The number that a string of decimal digits writes.
pub open spec fn nat_of(s: Seq<char>) -> int
    decreases s.len(),
{
    if s.len() == 0 {
        0
    } else {
        nat_of(s.drop_last()) * 10 + digit_val(s.last())
    }
}

/// The shortest decimal digits of `n`.
pub open spec fn nat_text(n: nat) -> Seq<char>
    decreases n,
{
    if n < 10 {
        seq![digit_char(n as int)]
    } else {
        nat_text(n / 10).push(digit_char((n % 10) as int))
    }
}

/// Decimal text of `x`, with a leading `-` when negative.
pub open spec fn int_text(x: int) -> Seq<char> {
    if x < 0 {
        seq!['-'] + nat_text((-x) as nat)
    } else {
        nat_text(x as nat)
    }
}

/// The 32-bit signed integer that `s` writes in decimal, with an optional sign.
pub open spec fn int_of(s: Seq<char>) -> Option<i32> {
    if s.len() == 0 {
        None
    } else if s[0] == '-' || s[0] == '+' {
        let d = s.skip(1);
        if d.len() > 0 && all_digits(d) {
            if s[0] == '-' && nat_of(d) <= 0x8000_0000 {
                Some((-nat_of(d)) as i32)
            } else if s[0] == '+' && nat_of(d) <= 0x7fff_ffff {
                Some(nat_of(d) as i32)
            } else {
                None
            }
        } else {
            None
        }
    } else if all_digits(s) && nat_of(s) <= 0x7fff_ffff {
        Some(nat_of(s) as i32)
    } else {
        None
    }
}

proof fn lemma_nat_of_nonneg(s: Seq<char>)
    requires
        all_digits(s),
    ensures
        nat_of(s) >= 0,
    decreases s.len(),
{
    if s.len() > 0 {
        assert(all_digits(s.drop_last()));
        lemma_nat_of_nonneg(s.drop_last());
        assert(is_digit(s[s.len() - 1]));
    }
}

proof fn lemma_nat_of_prefix(s: Seq<char>, k: int)
    requires
        all_digits(s),
        0 <= k <= s.len(),
    ensures
        nat_of(s.subrange(0, k)) <= nat_of(s),
    decreases s.len(),
{
    if k == s.len() {
        assert(s.subrange(0, k) =~= s);
    } else {
        let s0 = s.drop_last();
        assert(all_digits(s0));
        assert(s0.subrange(0, k) =~= s.subrange(0, k));
        lemma_nat_of_prefix(s0, k);
        lemma_nat_of_nonneg(s0);
        assert(is_digit(s[s.len() - 1]));
    }
}

proof fn lemma_digit(d: int)
    requires
        0 <= d < 10,
    ensures
        digit_val(digit_char(d)) == d,
        is_digit(digit_char(d)),
{
}

proof fn lemma_nat_text(n: nat)
    ensures
        all_digits(nat_text(n)),
        nat_text(n).len() > 0,
        nat_of(nat_text(n)) == n,
    decreases n,
{
    if n < 10 {
        let t = nat_text(n);
        lemma_digit(n as int);
        assert(t.drop_last() =~= Seq::<char>::empty());
        assert(nat_of(t.drop_last()) == 0);
        assert(t.last() == digit_char(n as int));
        assert(nat_of(t) == nat_of(t.drop_last()) * 10 + digit_val(t.last()));
    } else {
        lemma_nat_text(n / 10);
        lemma_digit((n % 10) as int);
        let t = nat_text(n);
        assert(t.drop_last() =~= nat_text(n / 10));
        assert(all_digits(t)) by {
            assert forall|i: int| 0 <= i < t.len() implies is_digit(#[trigger] t[i]) by {
                if i < t.len() - 1 {
                    assert(t[i] == nat_text(n / 10)[i]);
                }
            }
        }
        assert(t.last() == digit_char((n % 10) as int));
        assert(nat_of(t) == nat_of(nat_text(n / 10)) * 10 + digit_val(t.last()));
        assert(n == (n / 10) * 10 + n % 10) by (nonlinear_arith);
    }
}

/// Decimal text reads back as the number it was written from.
#[verifier::rlimit(50)]
pub proof fn lemma_int_text(x: i32)
    ensures
        int_of(int_text(x as int)) == Some(x),
        is_word(int_text(x as int)),
        int_text(x as int)[0] == '-' || is_digit(int_text(x as int)[0]),
{
    if x < 0 {
        let n = (-(x as int)) as nat;
        lemma_nat_text(n);
        let t = int_text(x as int);
        assert(t.skip(1) =~= nat_text(n));
        assert(no_ws(t)) by {
            assert forall|i: int| 0 <= i < t.len() implies !is_ws(#[trigger] t[i]) by {
                if i > 0 {
                    assert(t[i] == nat_text(n)[i - 1]);
                }
            }
        }
    } else {
        lemma_nat_text(x as nat);
        let t = int_text(x as int);
        assert(no_ws(t)) by {
            assert forall|i: int| 0 <= i < t.len() implies !is_ws(#[trigger] t[i]) by {
                assert(is_digit(t[i]));
            }
        }
    }
}

/// Reads a signed decimal 32-bit integer.
pub fn parse_int(t: &Vec<char>) -> (r: Option<i32>)
    ensures
        r == int_of(t@),
{
    if t.len() == 0 {
        return None;
    }
    let neg = t[0] == '-';
    let start: usize = if t[0] == '-' || t[0] == '+' { 1 } else { 0 };
    if start == t.len() {
        return None;
    }
    let ghost d = t@.skip(start as int);
    proof {
        if start == 0 {
            assert(d =~= t@);
        }
    }
    let limit: i64 = if neg { 0x8000_0000 } else { 0x7fff_ffff };
    let mut acc: i64 = 0;
    let mut i: usize = start;
    while i < t.len()
        invariant
            d == t@.skip(start as int),
            t@.len() > 0,
            start == (if t@[0] == '-' || t@[0] == '+' { 1usize } else { 0usize }),
            neg == (t@[0] == '-'),
            limit == (if neg { 0x8000_0000i64 } else { 0x7fff_ffffi64 }),
            start == 0 ==> d == t@,
            start < t@.len(),
            start <= i <= t@.len(),
            limit <= 0x8000_0000,
            0 <= acc <= limit,
            all_digits(d.subrange(0, i - start)),
            acc == nat_of(d.subrange(0, i - start)),
        decreases t@.len() - i,
    {
        let c = t[i];
        if !('0' <= c && c <= '9') {
            proof {
                assert(!is_digit(d[i - start]));
            }
            return None;
        }
        let v = (c as u32 - '0' as u32) as i64;
        let ghost prev = d.subrange(0, i - start);
        acc = acc * 10 + v;
        i += 1;
        proof {
            assert(d.subrange(0, i - start).drop_last() =~= prev);
            assert(all_digits(d.subrange(0, i - start))) by {
                assert forall|k: int| 0 <= k < i - start implies is_digit(
                    #[trigger] d.subrange(0, i - start)[k],
                ) by {
                    if k < i - start - 1 {
                        assert(d.subrange(0, i - start)[k] == prev[k]);
                    }
                }
            }
        }
        if acc > limit {
            proof {
                if all_digits(d) {
                    lemma_nat_of_prefix(d, i - start);
                }
            }
            return None;
        }
    }
    proof {
        assert(d.subrange(0, i - start) =~= d);
        if start == 0 {
            assert(d =~= t@);
        }
    }
    if neg {
        Some((-acc) as i32)
    } else {
        Some(acc as i32)
    }
}

fn digit_to_char(d: u64) -> (c: char)
    requires
        d < 10,
    ensures
        c == digit_char(d as int),
{
    if d == 0 { '0' }
    else if d == 1 { '1' }
    else if d == 2 { '2' }
    else if d == 3 { '3' }
    else if d == 4 { '4' }
    else if d == 5 { '5' }
    else if d == 6 { '6' }
    else if d == 7 { '7' }
    else if d == 8 { '8' }
    else { '9' }
}

pub fn push_nat_text(n: u64, out: &mut Vec<char>)
    ensures
        final(out)@ == old(out)@ + nat_text(n as nat),
    decreases n,
{
    if n < 10 {
        out.push(digit_to_char(n));
        proof {
            assert(final(out)@ =~= old(out)@ + nat_text(n as nat));
        }
    } else {
        push_nat_text(n / 10, out);
        out.push(digit_to_char(n % 10));
        proof {
            assert(final(out)@ =~= old(out)@ + nat_text(n as nat));
        }
    }
}

/// Appends the decimal text of `x`.
pub fn push_int_text(x: i32, out: &mut Vec<char>)
    ensures
        final(out)@ == old(out)@ + int_text(x as int),
{
    if x < 0 {
        out.push('-');
        let n: u64 = (-(x as i64)) as u64;
        push_nat_text(n, out);
        proof {
            assert(final(out)@ =~= old(out)@ + int_text(x as int));
        }
    } else {
        push_nat_text(x as u64, out);
    }
}

/// Appends all of `w`.
pub fn push_all(w: &Vec<char>, out: &mut Vec<char>)
    ensures
        final(out)@ == old(out)@ + w@,
{
    let mut i: usize = 0;
    while i < w.len()
        invariant
            0 <= i <= w@.len(),
            out@ == old(out)@ + w@.subrange(0, i as int),
        decreases w@.len() - i,
    {
        out.push(w[i]);
        i += 1;
        proof {
            assert(out@ =~= old(out)@ + w@.subrange(0, i as int));
        }
    }
    proof {
        assert(w@.subrange(0, w@.len() as int) =~= w@);
    }
}

/// Whether `t` holds exactly the characters of `w`.
pub fn chars_eq(t: &Vec<char>, w: &[char]) -> (r: bool)
    ensures
        r == (t@ == w@),
{
    if t.len() != w.len() {
        return false;
    }
    let mut i: usize = 0;
    while i < t.len()
        invariant
            t@.len() == w@.len(),
            0 <= i <= t@.len(),
            forall|k: int| 0 <= k < i ==> t@[k] == w@[k],
        decreases t@.len() - i,
    {
        if t[i] != w[i] {
            return false;
        }
        i += 1;
    }
    proof {
        assert(t@ =~= w@);
    }
    true
}

} // verus!
