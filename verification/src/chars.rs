//! Character-level groundwork for the codec: classification of tag-name and
//! digit characters, prefix scanners, XML escaping of text and attribute
//! values, and the decimal rendering of sequence numbers. The escaping and
//! the decimal rendering each come with the inversion lemmas the round-trip
//! proof rests on.

use vstd::prelude::*;

verus! {

/// Characters the codec accepts in element and attribute names.
pub open spec fn is_name_char(c: char) -> bool {
    ||| 'a' as u32 <= c as u32 && c as u32 <= 'z' as u32
    ||| 'A' as u32 <= c as u32 && c as u32 <= 'Z' as u32
    ||| '0' as u32 <= c as u32 && c as u32 <= '9' as u32
}

pub open spec fn is_digit(c: char) -> bool {
    '0' as u32 <= c as u32 && c as u32 <= '9' as u32
}

/// First index at or after `i` whose character fails `p` (or the end).
pub open spec fn scan_while(s: Seq<char>, i: int, p: spec_fn(char) -> bool) -> int
    decreases s.len() - i,
{
    if 0 <= i < s.len() && p(s[i]) {
        scan_while(s, i + 1, p)
    } else {
        i
    }
}

pub open spec fn name_end(s: Seq<char>, i: int) -> int {
    scan_while(s, i, |c: char| is_name_char(c))
}

/// End of a text run: the first `<` at or after `i`, or the end of input.
pub open spec fn text_end(s: Seq<char>, i: int) -> int {
    scan_while(s, i, |c: char| c != '<')
}

pub open spec fn digits_end(s: Seq<char>, i: int) -> int {
    scan_while(s, i, |c: char| is_digit(c))
}

pub proof fn lemma_scan_while(s: Seq<char>, i: int, p: spec_fn(char) -> bool)
    requires
        0 <= i <= s.len(),
    ensures
        i <= scan_while(s, i, p) <= s.len(),
        forall|k: int| i <= k < scan_while(s, i, p) ==> p(s[k]),
        scan_while(s, i, p) < s.len() ==> !p(s[scan_while(s, i, p)]),
    decreases s.len() - i,
{
    if i < s.len() && p(s[i]) {
        lemma_scan_while(s, i + 1, p);
    }
}

/// The scanner's result is pinned by exhibiting the stretch it runs over.
pub proof fn lemma_scan_while_is(s: Seq<char>, i: int, j: int, p: spec_fn(char) -> bool)
    requires
        0 <= i <= j <= s.len(),
        forall|k: int| i <= k < j ==> p(s[k]),
        j < s.len() ==> !p(s[j]),
    ensures
        scan_while(s, i, p) == j,
    decreases j - i,
{
    if i < j {
        lemma_scan_while_is(s, i + 1, j, p);
    }
}


/// Two successive suffixes collapse into one.
pub proof fn lemma_skip_skip(s: Seq<char>, a: int, b: int)
    requires
        0 <= a,
        0 <= b,
        a + b <= s.len(),
    ensures
        s.skip(a).skip(b) == s.skip(a + b),
{
    assert(s.skip(a).skip(b) =~= s.skip(a + b));
}

// ---------------------------------------------------------------------------
// Escaping of reserved XML characters.
// ---------------------------------------------------------------------------

/// The replacement a single character serializes as.
pub open spec fn escape_char(c: char) -> Seq<char> {
    if c == '<' {
        "&lt;"@
    } else if c == '>' {
        "&gt;"@
    } else if c == '&' {
        "&amp;"@
    } else if c == '"' {
        "&quot;"@
    } else if c == '\'' {
        "&apos;"@
    } else {
        seq![c]
    }
}

/// Escaped form of a text or attribute value.
pub open spec fn escape(s: Seq<char>) -> Seq<char>
    decreases s.len(),
{
    if s.len() == 0 {
        Seq::empty()
    } else {
        escape_char(s[0]) + escape(s.skip(1))
    }
}

pub open spec fn cons_unescaped(c: char, r: Option<Seq<char>>) -> Option<Seq<char>> {
    match r {
        Some(t) => Some(seq![c] + t),
        None => None,
    }
}

/// Inverse of `escape`: replaces the five entities, copies other characters,
/// and rejects any other use of `&`.
pub open spec fn unescape(s: Seq<char>) -> Option<Seq<char>>
    decreases s.len(),
{
    if s.len() == 0 {
        Some(Seq::empty())
    } else if s[0] == '&' {
        if s.len() >= 4 && s.subrange(0, 4) == "&lt;"@ {
            cons_unescaped('<', unescape(s.skip(4)))
        } else if s.len() >= 4 && s.subrange(0, 4) == "&gt;"@ {
            cons_unescaped('>', unescape(s.skip(4)))
        } else if s.len() >= 5 && s.subrange(0, 5) == "&amp;"@ {
            cons_unescaped('&', unescape(s.skip(5)))
        } else if s.len() >= 6 && s.subrange(0, 6) == "&quot;"@ {
            cons_unescaped('"', unescape(s.skip(6)))
        } else if s.len() >= 6 && s.subrange(0, 6) == "&apos;"@ {
            cons_unescaped('\'', unescape(s.skip(6)))
        } else {
            None
        }
    } else {
        cons_unescaped(s[0], unescape(s.skip(1)))
    }
}

pub proof fn lemma_escape_concat(a: Seq<char>, b: Seq<char>)
    ensures
        escape(a + b) == escape(a) + escape(b),
    decreases a.len(),
{
    if a.len() == 0 {
        assert(a + b =~= b);
        assert(escape(a) + escape(b) =~= escape(b));
    } else {
        lemma_escape_concat(a.skip(1), b);
        assert((a + b).skip(1) =~= a.skip(1) + b);
        assert(escape(a + b) =~= escape_char(a[0]) + (escape(a.skip(1)) + escape(b)));
        assert(escape(a) + escape(b) =~= escape_char(a[0]) + (escape(a.skip(1)) + escape(b)));
    }
}

/// No raw markup delimiter survives escaping.
pub proof fn lemma_escape_no_specials(s: Seq<char>)
    ensures
        forall|k: int|
            0 <= k < escape(s).len() ==> escape(s)[k] != '<' && escape(s)[k] != '>'
                && escape(s)[k] != '"',
    decreases s.len(),
{
    reveal_strlit("&lt;");
    reveal_strlit("&gt;");
    reveal_strlit("&amp;");
    reveal_strlit("&quot;");
    reveal_strlit("&apos;");
    if s.len() > 0 {
        lemma_escape_no_specials(s.skip(1));
        assert forall|k: int|
            0 <= k < escape(s).len() implies escape(s)[k] != '<' && escape(s)[k] != '>'
            && escape(s)[k] != '"' by {
            let e = escape_char(s[0]);
            if k < e.len() {
                assert(escape(s)[k] == e[k]);
            } else {
                assert(escape(s)[k] == escape(s.skip(1))[k - e.len()]);
            }
        }
    }
}

/// Unescaping undoes escaping: the text-value round trip.
pub proof fn lemma_unescape_escape(s: Seq<char>)
    ensures
        unescape(escape(s)) == Some(s),
    decreases s.len(),
{
    reveal_strlit("&lt;");
    reveal_strlit("&gt;");
    reveal_strlit("&amp;");
    reveal_strlit("&quot;");
    reveal_strlit("&apos;");
    if s.len() == 0 {
        assert(s =~= Seq::<char>::empty());
    } else {
        lemma_unescape_escape(s.skip(1));
        let c = s[0];
        let e = escape_char(c);
        let es = escape(s);
        let rest = escape(s.skip(1));
        assert(es == e + rest);
        assert(seq![c] + s.skip(1) =~= s);
        if c == '<' {
            assert(es.subrange(0, 4) =~= "&lt;"@);
            assert(es.skip(4) =~= rest);
        } else if c == '>' {
            assert(es.subrange(0, 4)[1] == 'g');
            assert(es.subrange(0, 4) != "&lt;"@);
            assert(es.subrange(0, 4) =~= "&gt;"@);
            assert(es.skip(4) =~= rest);
        } else if c == '&' {
            assert(es.subrange(0, 4)[1] == 'a');
            assert(es.subrange(0, 4) != "&lt;"@);
            assert(es.subrange(0, 4) != "&gt;"@);
            assert(es.subrange(0, 5) =~= "&amp;"@);
            assert(es.skip(5) =~= rest);
        } else if c == '"' {
            assert(es.subrange(0, 4)[1] == 'q');
            assert(es.subrange(0, 4) != "&lt;"@);
            assert(es.subrange(0, 4) != "&gt;"@);
            assert(es.subrange(0, 5)[1] == 'q');
            assert(es.subrange(0, 5) != "&amp;"@);
            assert(es.subrange(0, 6) =~= "&quot;"@);
            assert(es.skip(6) =~= rest);
        } else if c == '\'' {
            assert(es.subrange(0, 4)[1] == 'a');
            assert(es.subrange(0, 4) != "&lt;"@);
            assert(es.subrange(0, 4) != "&gt;"@);
            assert(es.subrange(0, 5)[2] == 'p');
            assert(es.subrange(0, 5) != "&amp;"@);
            assert(es.subrange(0, 6)[1] == 'a');
            assert(es.subrange(0, 6) != "&quot;"@);
            assert(es.subrange(0, 6) =~= "&apos;"@);
            assert(es.skip(6) =~= rest);
        } else {
            assert(es[0] == c);
            assert(es.skip(1) =~= rest);
        }
    }
}

// ---------------------------------------------------------------------------
// Decimal rendering and reading of sequence numbers.
// ---------------------------------------------------------------------------

pub open spec fn digit_char(d: nat) -> char {
    if d == 0 {
        '0'
    } else if d == 1 {
        '1'
    } else if d == 2 {
        '2'
    } else if d == 3 {
        '3'
    } else if d == 4 {
        '4'
    } else if d == 5 {
        '5'
    } else if d == 6 {
        '6'
    } else if d == 7 {
        '7'
    } else if d == 8 {
        '8'
    } else {
        '9'
    }
}

pub open spec fn digit_val(c: char) -> nat {
    (c as u32 - '0' as u32) as nat
}

/// Canonical decimal rendering of a number, no leading zeros.
pub open spec fn dec_of(n: nat) -> Seq<char>
    decreases n,
{
    if n < 10 {
        seq![digit_char(n)]
    } else {
        dec_of(n / 10) + seq![digit_char(n % 10)]
    }
}

/// Numeric value of a digit run.
pub open spec fn val_of(ds: Seq<char>) -> nat
    decreases ds.len(),
{
    if ds.len() == 0 {
        0
    } else {
        val_of(ds.drop_last()) * 10 + digit_val(ds.last())
    }
}

pub proof fn lemma_dec_of_digits(n: nat)
    ensures
        dec_of(n).len() >= 1,
        forall|k: int| 0 <= k < dec_of(n).len() ==> is_digit(dec_of(n)[k]),
    decreases n,
{
    if n >= 10 {
        lemma_dec_of_digits(n / 10);
        assert forall|k: int| 0 <= k < dec_of(n).len() implies is_digit(dec_of(n)[k]) by {
            if k < dec_of(n / 10).len() {
                assert(dec_of(n)[k] == dec_of(n / 10)[k]);
            } else {
                assert(dec_of(n)[k] == digit_char(n % 10));
            }
        }
    }
}

/// Reading back the canonical rendering gives the number again.
pub proof fn lemma_val_of_dec_of(n: nat)
    ensures
        val_of(dec_of(n)) == n,
    decreases n,
{
    if n < 10 {
        assert(dec_of(n).drop_last() =~= Seq::<char>::empty());
        assert(val_of(dec_of(n)) == val_of(Seq::<char>::empty()) * 10 + digit_val(
            digit_char(n),
        ));
        assert(digit_val(digit_char(n)) == n);
    } else {
        lemma_val_of_dec_of(n / 10);
        assert(dec_of(n).drop_last() =~= dec_of(n / 10));
        assert(dec_of(n).last() == digit_char(n % 10));
        assert(val_of(dec_of(n)) == (n / 10) * 10 + n % 10);
    }
}

// ---------------------------------------------------------------------------
// Executable helpers.
// ---------------------------------------------------------------------------

/// Relies on `String::push`: appends exactly the given character.
#[verifier::external_body]
pub fn push_char(out: &mut String, c: char)
    ensures
        final(out)@ == old(out)@ + seq![c],
{
    out.push(c);
}

/// Collects the characters of a string slice into a vector.
pub fn chars_of(s: &str) -> (res: Vec<char>)
    ensures
        res@ == s@,
{
    let n = s.unicode_len();
    let mut v: Vec<char> = Vec::new();
    let mut i: usize = 0;
    while i < n
        invariant
            n == s@.len(),
            i <= n,
            v@ == s@.subrange(0, i as int),
        decreases n - i,
    {
        let c = s.get_char(i);
        v.push(c);
        i = i + 1;
        assert(v@ =~= s@.subrange(0, i as int));
    }
    assert(v@ =~= s@);
    v
}

/// Compares a stretch of the character buffer with a string literal.
pub fn range_eq_str(v: &Vec<char>, lo: usize, hi: usize, lit: &str) -> (res: bool)
    requires
        lo <= hi <= v@.len(),
    ensures
        res == (v@.subrange(lo as int, hi as int) == lit@),
{
    let n = lit.unicode_len();
    if hi - lo != n {
        assert(v@.subrange(lo as int, hi as int).len() != lit@.len());
        return false;
    }
    let mut k: usize = 0;
    while k < n
        invariant
            n == lit@.len(),
            lo <= hi <= v@.len(),
            hi - lo == n,
            k <= n,
            forall|j: int| 0 <= j < k ==> v@.subrange(lo as int, hi as int)[j] == lit@[j],
        decreases n - k,
    {
        let c = v[lo + k];
        let d = lit.get_char(k);
        if c != d {
            assert(v@.subrange(lo as int, hi as int)[k as int] != lit@[k as int]);
            return false;
        }
        k = k + 1;
    }
    assert(v@.subrange(lo as int, hi as int) =~= lit@);
    true
}

/// Appends the escaped form of a value to the output.
pub fn append_escaped(out: &mut String, s: &str)
    ensures
        final(out)@ == old(out)@ + escape(s@),
{
    let n = s.unicode_len();
    let mut i: usize = 0;
    while i < n
        invariant
            n == s@.len(),
            i <= n,
            out@ == old(out)@ + escape(s@.subrange(0, i as int)),
        decreases n - i,
    {
        let c = s.get_char(i);
        if c == '<' {
            out.append("&lt;");
        } else if c == '>' {
            out.append("&gt;");
        } else if c == '&' {
            out.append("&amp;");
        } else if c == '"' {
            out.append("&quot;");
        } else if c == '\'' {
            out.append("&apos;");
        } else {
            push_char(out, c);
        }
        proof {
            let ghost cc = s@[i as int];
            let ghost single: Seq<char> = seq![cc];
            let ghost pre = s@.subrange(0, i as int);
            lemma_escape_concat(pre, single);
            assert(pre + single =~= s@.subrange(0, i + 1));
            assert(single.skip(1) =~= Seq::<char>::empty());
            assert(escape(single) == escape_char(cc) + escape(single.skip(1)));
            assert(escape(single) =~= escape_char(cc));
        }
        i = i + 1;
    }
    assert(s@.subrange(0, n as int) =~= s@);
}

/// Appends the canonical decimal rendering of a number to the output.
pub fn append_u32(out: &mut String, n: u32)
    ensures
        final(out)@ == old(out)@ + dec_of(n as nat),
    decreases n,
{
    if n >= 10 {
        append_u32(out, n / 10);
    }
    let d = n % 10;
    let c: char = if d == 0 {
        '0'
    } else if d == 1 {
        '1'
    } else if d == 2 {
        '2'
    } else if d == 3 {
        '3'
    } else if d == 4 {
        '4'
    } else if d == 5 {
        '5'
    } else if d == 6 {
        '6'
    } else if d == 7 {
        '7'
    } else if d == 8 {
        '8'
    } else {
        '9'
    };
    assert(c == digit_char((n % 10) as nat));
    push_char(out, c);
    proof {
        if n < 10 {
            assert(dec_of(n as nat) =~= seq![digit_char(n as nat)]);
            assert((n % 10) as nat == n as nat);
        } else {
            assert(dec_of(n as nat) =~= dec_of((n / 10) as nat) + seq![
                digit_char((n % 10) as nat),
            ]);
        }
    }
}

} // verus!
