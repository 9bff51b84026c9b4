use vstd::prelude::*;

verus! {

// ---------------------------------------------------------------------------
// Building strings
// ---------------------------------------------------------------------------

/// Relies on String::push: appends one character at the end of the string.
#[verifier::external_body]
pub fn push_char(s: &mut String, c: char)
    ensures
        final(s)@ == old(s)@.push(c),
{
    s.push(c)
}

// ---------------------------------------------------------------------------
// Comparing strings
// ---------------------------------------------------------------------------

/// Character-for-character equality of two string slices.
pub fn str_eq(a: &str, b: &str) -> (r: bool)
    ensures
        r == (a@ == b@),
{
    let alen = a.unicode_len();
    let blen = b.unicode_len();
    if alen != blen {
        return false;
    }
    let mut i: usize = 0;
    while i < alen
        invariant
            i <= alen,
            alen == a@.len(),
            alen == b@.len(),
            forall|j: int| 0 <= j < i ==> a@[j] == b@[j],
        decreases alen - i,
    {
        if a.get_char(i) != b.get_char(i) {
            return false;
        }
        i = i + 1;
    }
    proof {
        assert(a@ =~= b@);
    }
    true
}

// ---------------------------------------------------------------------------
// Splitting at a separator
// ---------------------------------------------------------------------------

/// Splits a character sequence at every occurrence of `sep`.  The result has
/// one field more than there are separators, so it is never empty; fields keep
/// their order and do not contain the separator.
pub open spec fn split_spec(s: Seq<char>, sep: char) -> Seq<Seq<char>>
    decreases s.len(),
{
    if s.len() == 0 {
        seq![Seq::<char>::empty()]
    } else if s[0] == sep {
        seq![Seq::<char>::empty()] + split_spec(s.drop_first(), sep)
    } else {
        let rest = split_spec(s.drop_first(), sep);
        seq![seq![s[0]] + rest[0]] + rest.drop_first()
    }
}

pub proof fn lemma_split_spec_len(s: Seq<char>, sep: char)
    ensures
        split_spec(s, sep).len() >= 1,
    decreases s.len(),
{
    if s.len() == 0 {
    } else {
        lemma_split_spec_len(s.drop_first(), sep);
    }
}

/// Extending the input by one character extends the last field, or starts a
/// fresh empty field when the character is the separator.
pub proof fn lemma_split_spec_push(s: Seq<char>, sep: char, c: char)
    ensures
        split_spec(s, sep).len() >= 1,
        c == sep ==> split_spec(s.push(c), sep) == split_spec(s, sep).push(Seq::<char>::empty()),
        c != sep ==> split_spec(s.push(c), sep) == split_spec(s, sep).update(
            split_spec(s, sep).len() - 1,
            split_spec(s, sep).last().push(c),
        ),
    decreases s.len(),
{
    reveal_with_fuel(split_spec, 3);
    lemma_split_spec_len(s, sep);
    if s.len() == 0 {
        assert(s.push(c) =~= seq![c]);
        assert(seq![c].drop_first() =~= Seq::<char>::empty());
        assert(split_spec(Seq::<char>::empty(), sep) =~= seq![Seq::<char>::empty()]);
        if c == sep {
            assert(split_spec(s.push(c), sep) =~= split_spec(s, sep).push(Seq::<char>::empty()));
        } else {
            assert(seq![c] + Seq::<char>::empty() =~= seq![c]);
            assert(split_spec(s.push(c), sep) =~= split_spec(s, sep).update(
                0,
                split_spec(s, sep).last().push(c),
            ));
        }
    } else {
        let t = s.drop_first();
        lemma_split_spec_len(t, sep);
        lemma_split_spec_push(t, sep, c);
        assert(s.push(c).drop_first() =~= t.push(c));
        assert(s.push(c)[0] == s[0]);
        let rt = split_spec(t, sep);
        if c == sep {
            if s[0] == sep {
                assert(split_spec(s.push(c), sep) =~= split_spec(s, sep).push(
                    Seq::<char>::empty(),
                ));
            } else {
                assert(rt.push(Seq::<char>::empty())[0] == rt[0]);
                assert(rt.push(Seq::<char>::empty()).drop_first() =~= rt.drop_first().push(
                    Seq::<char>::empty(),
                ));
                assert(split_spec(s.push(c), sep) =~= split_spec(s, sep).push(
                    Seq::<char>::empty(),
                ));
            }
        } else {
            let rt2 = rt.update(rt.len() - 1, rt.last().push(c));
            if s[0] == sep {
                assert(split_spec(s.push(c), sep) =~= seq![Seq::<char>::empty()] + rt2);
                let lhs = seq![Seq::<char>::empty()] + rt2;
                let whole = split_spec(s, sep);
                assert(lhs =~= whole.update(whole.len() - 1, whole.last().push(c)));
            } else {
                assert(split_spec(s.push(c), sep) =~= seq![seq![s[0]] + rt2[0]] + rt2.drop_first());
                let whole = split_spec(s, sep);
                if rt.len() == 1 {
                    assert(rt2[0] == rt[0].push(c));
                    assert(whole.len() == 1);
                    assert(whole.last() == seq![s[0]] + rt[0]);
                    assert(seq![s[0]] + rt[0].push(c) =~= (seq![s[0]] + rt[0]).push(c));
                    assert(seq![seq![s[0]] + rt2[0]] + rt2.drop_first() =~= whole.update(
                        whole.len() - 1,
                        whole.last().push(c),
                    ));
                } else {
                    assert(rt2[0] == rt[0]);
                    assert(whole.last() == rt.last());
                    assert(seq![seq![s[0]] + rt2[0]] + rt2.drop_first() =~= whole.update(
                        whole.len() - 1,
                        whole.last().push(c),
                    ));
                }
            }
        }
    }
}

/// Splits a string slice at every occurrence of `sep`.
pub fn split_str(s: &str, sep: char) -> (r: Vec<String>)
    ensures
        r.deep_view() == split_spec(s@, sep),
        r.len() >= 1,
{
    let len = s.unicode_len();
    let mut done: Vec<String> = Vec::new();
    let mut field: String = String::new();
    let mut i: usize = 0;
    proof {
        assert(s@.subrange(0, 0) =~= Seq::<char>::empty());
        assert(done.deep_view().push(field@) =~= split_spec(s@.subrange(0, 0), sep));
    }
    while i < len
        invariant
            i <= len,
            len == s@.len(),
            done.deep_view().push(field@) == split_spec(s@.subrange(0, i as int), sep),
        decreases len - i,
    {
        let c = s.get_char(i);
        proof {
            assert(s@.subrange(0, i + 1) =~= s@.subrange(0, i as int).push(s@[i as int]));
            lemma_split_spec_push(s@.subrange(0, i as int), sep, s@[i as int]);
        }
        if c == sep {
            done.push(field);
            field = String::new();
            proof {
                assert(done.deep_view().push(field@) =~= split_spec(
                    s@.subrange(0, i + 1),
                    sep,
                ));
            }
        } else {
            push_char(&mut field, c);
            proof {
                let prev = split_spec(s@.subrange(0, i as int), sep);
                assert(done.deep_view().push(field@) =~= prev.update(
                    prev.len() - 1,
                    prev.last().push(c),
                ));
            }
        }
        i = i + 1;
    }
    proof {
        assert(s@.subrange(0, len as int) =~= s@);
    }
    done.push(field);
    proof {
        assert(done.deep_view() =~= split_spec(s@, sep));
    }
    done
}

// ---------------------------------------------------------------------------
// Decimal numerals
// ---------------------------------------------------------------------------

/// The character of a single decimal digit value.
pub open spec fn dec_digit(d: nat) -> char {
    if d == 0 {
        '0'
    } else if d == 1 {
        '1'
    } else if d == 2 {
        '2'
    } else if d == 3 {
        '3'
    } else if d == 4 {
        '4'
    } else if d == 5 {
        '5'
    } else if d == 6 {
        '6'
    } else if d == 7 {
        '7'
    } else if d == 8 {
        '8'
    } else {
        '9'
    }
}

/// The decimal numeral of `n`, without sign or leading zeros.
pub open spec fn dec_digits(n: nat) -> Seq<char>
    decreases n,
{
    if n < 10 {
        seq![dec_digit(n)]
    } else {
        dec_digits(n / 10).push(dec_digit(n % 10))
    }
}

fn dec_digit_exec(d: u8) -> (c: char)
    requires
        d < 10,
    ensures
        c == dec_digit(d as nat),
{
    if d == 0 {
        '0'
    } else if d == 1 {
        '1'
    } else if d == 2 {
        '2'
    } else if d == 3 {
        '3'
    } else if d == 4 {
        '4'
    } else if d == 5 {
        '5'
    } else if d == 6 {
        '6'
    } else if d == 7 {
        '7'
    } else if d == 8 {
        '8'
    } else {
        '9'
    }
}

/// Writes `n` in decimal.
pub fn usize_to_string(n: usize) -> (r: String)
    ensures
        r@ == dec_digits(n as nat),
    decreases n,
{
    if n < 10 {
        let mut s = String::new();
        push_char(&mut s, dec_digit_exec(n as u8));
        proof {
            assert(s@ =~= dec_digits(n as nat));
        }
        s
    } else {
        let mut s = usize_to_string(n / 10);
        push_char(&mut s, dec_digit_exec((n % 10) as u8));
        s
    }
}

pub open spec fn is_dec_digit(c: char) -> bool {
    48 <= c as int <= 57
}

pub open spec fn digit_val(c: char) -> nat {
    (c as int - 48) as nat
}

/// A non-empty run of decimal digits.
pub open spec fn is_numeral(s: Seq<char>) -> bool {
    s.len() > 0 && forall|i: int| 0 <= i < s.len() ==> is_dec_digit(s[i])
}

/// The value of a digit run, read most significant first.
pub open spec fn numeral_val(s: Seq<char>) -> nat
    decreases s.len(),
{
    if s.len() == 0 {
        0
    } else {
        numeral_val(s.drop_last()) * 10 + digit_val(s.last())
    }
}

proof fn lemma_numeral_prefix_le(s: Seq<char>, k: int)
    requires
        0 <= k <= s.len(),
    ensures
        numeral_val(s.subrange(0, k)) <= numeral_val(s),
    decreases s.len() - k,
{
    if k == s.len() {
        assert(s.subrange(0, k) =~= s);
    } else {
        lemma_numeral_prefix_le(s, k + 1);
        let p = s.subrange(0, k + 1);
        assert(p.drop_last() =~= s.subrange(0, k));
        assert(numeral_val(s.subrange(0, k)) <= numeral_val(p));
    }
}

/// Reads an unsigned decimal number, allowing one leading `+` sign, as
/// `usize::from_str` does; rejects anything else and values above
/// `usize::MAX`.
pub open spec fn numeral_part(s: Seq<char>) -> Seq<char> {
    if s.len() > 0 && s[0] == '+' {
        s.drop_first()
    } else {
        s
    }
}

pub fn parse_usize(s: &str) -> (r: Option<usize>)
    ensures
        match r {
            Some(v) => is_numeral(numeral_part(s@)) && v as nat == numeral_val(numeral_part(s@))
                && numeral_val(numeral_part(s@)) <= usize::MAX,
            None => !(is_numeral(numeral_part(s@)) && numeral_val(numeral_part(s@))
                <= usize::MAX),
        },
{
    let len = s.unicode_len();
    let mut start: usize = 0;
    if len > 0 && s.get_char(0) == '+' {
        start = 1;
    }
    let ghost digits = numeral_part(s@);
    proof {
        assert(digits =~= s@.subrange(start as int, len as int));
    }
    if start == len {
        return None;
    }
    let mut acc: usize = 0;
    let mut i: usize = start;
    while i < len
        invariant
            start <= i <= len,
            len == s@.len(),
            start < len,
            digits == numeral_part(s@),
            digits =~= s@.subrange(start as int, len as int),
            forall|j: int| start <= j < i ==> is_dec_digit(s@[j]),
            acc as nat == numeral_val(s@.subrange(start as int, i as int)),
        decreases len - i,
    {
        let c = s.get_char(i);
        let cv = c as u32;
        if cv < 48 || cv > 57 {
            proof {
                assert(digits[i - start] == s@[i as int]);
                assert(!is_numeral(digits));
            }
            return None;
        }
        let d = (cv - 48) as usize;
        let wide: u128 = (acc as u128) * 10 + (d as u128);
        proof {
            assert(s@.subrange(start as int, i + 1).drop_last() =~= s@.subrange(
                start as int,
                i as int,
            ));
        }
        if wide > usize::MAX as u128 {
            proof {
                if is_numeral(digits) {
                    lemma_numeral_prefix_le(digits, i + 1 - start);
                    assert(digits.subrange(0, i + 1 - start) =~= s@.subrange(
                        start as int,
                        i + 1,
                    ));
                }
            }
            return None;
        }
        acc = acc * 10 + d;
        i = i + 1;
    }
    proof {
        assert(s@.subrange(start as int, len as int) =~= digits);
        assert(forall|j: int| 0 <= j < digits.len() ==> is_dec_digit(digits[j]));
    }
    Some(acc)
}

// ---------------------------------------------------------------------------
// Ordering strings
// ---------------------------------------------------------------------------

/// Lexicographic order on character sequences by code point; a proper prefix
/// comes first.
pub open spec fn seq_lt(a: Seq<char>, b: Seq<char>) -> bool
    decreases a.len(),
{
    if b.len() == 0 {
        false
    } else if a.len() == 0 {
        true
    } else if a[0] != b[0] {
        (a[0] as int) < (b[0] as int)
    } else {
        seq_lt(a.drop_first(), b.drop_first())
    }
}

/// Lexicographic comparison of two string slices.
pub fn str_lt(a: &str, b: &str) -> (r: bool)
    ensures
        r == seq_lt(a@, b@),
    decreases a@.len(),
{
    let alen = a.unicode_len();
    let blen = b.unicode_len();
    if blen == 0 {
        false
    } else if alen == 0 {
        true
    } else {
        let ca = a.get_char(0);
        let cb = b.get_char(0);
        if ca != cb {
            (ca as u32) < (cb as u32)
        } else {
            let ra = a.substring_char(1, alen);
            let rb = b.substring_char(1, blen);
            proof {
                assert(ra@ =~= a@.drop_first());
                assert(rb@ =~= b@.drop_first());
            }
            str_lt(ra, rb)
        }
    }
}

// ---------------------------------------------------------------------------
// Splitting text into lines
// ---------------------------------------------------------------------------

/// A carriage return left at the end of a line by a CRLF line break is
/// dropped.
pub open spec fn strip_cr(l: Seq<char>) -> Seq<char> {
    if l.len() > 0 && l.last() == '\r' {
        l.drop_last()
    } else {
        l
    }
}

/// The lines of a text: split at every line feed, drop the
/// empty rest after a trailing line feed, and strip the carriage return that
/// a CRLF break leaves on every line that a line feed ended.
pub open spec fn lines_spec(s: Seq<char>) -> Seq<Seq<char>> {
    let ls = split_spec(s, '\n');
    let m = if ls.last().len() == 0 {
        ls.len() - 1
    } else {
        ls.len() as int
    };
    Seq::new(
        m as nat,
        |k: int|
            if k < ls.len() - 1 {
                strip_cr(ls[k])
            } else {
                ls[k]
            },
    )
}

/// Splits a text into lines, as iterating over its lines yields them.
pub fn split_lines(s: &str) -> (r: Vec<String>)
    ensures
        r.deep_view() == lines_spec(s@),
{
    let fields = split_str(s, '\n');
    let ghost ls = split_spec(s@, '\n');
    let n = fields.len();
    proof {
        assert(fields.deep_view().len() == n);
        assert(fields.deep_view()[n - 1] == fields@[n - 1]@);
    }
    let m = if fields[n - 1].as_str().unicode_len() == 0 {
        n - 1
    } else {
        n
    };
    let mut out: Vec<String> = Vec::new();
    let mut k: usize = 0;
    proof {
        assert(lines_spec(s@).len() == m);
        assert(out.deep_view() =~= lines_spec(s@).take(0));
    }
    while k < m
        invariant
            k <= m,
            m <= n,
            n == fields.len(),
            fields.deep_view() == ls,
            ls == split_spec(s@, '\n'),
            lines_spec(s@).len() == m,
            out.len() == k,
            out.deep_view() == lines_spec(s@).take(k as int),
        decreases m - k,
    {
        proof {
            assert(fields.deep_view()[k as int] == fields@[k as int]@);
        }
        let f = &fields[k];
        let flen = f.as_str().unicode_len();
        let line: String = if k + 1 < n && flen > 0 && f.as_str().get_char(flen - 1) == '\r' {
            let g = f.as_str().substring_char(0, flen - 1);
            proof {
                assert(g@ =~= f@.drop_last());
            }
            g.to_owned()
        } else {
            f.clone()
        };
        let ghost lv = line@;
        proof {
            assert(lv == lines_spec(s@)[k as int]);
        }
        out.push(line);
        proof {
            assert(out.deep_view().len() == out@.len());
            assert(out.deep_view() =~~= lines_spec(s@).take(k + 1));
        }
        k = k + 1;
    }
    proof {
        assert(lines_spec(s@).take(m as int) =~= lines_spec(s@));
    }
    out
}



/// The lexicographic order is transitive.
pub proof fn lemma_seq_lt_trans(a: Seq<char>, b: Seq<char>, c: Seq<char>)
    requires
        seq_lt(a, b),
        seq_lt(b, c),
    ensures
        seq_lt(a, c),
    decreases a.len() + b.len() + c.len(),
{
    if c.len() == 0 {
    } else if b.len() == 0 {
    } else if a.len() == 0 {
    } else {
        if a[0] != b[0] {
            if b[0] != c[0] {
                assert((a[0] as int) < (c[0] as int));
            } else {
                assert((a[0] as int) < (c[0] as int));
            }
        } else {
            if b[0] != c[0] {
                assert((b[0] as int) < (c[0] as int));
                if a[0] == c[0] {
                    assert((b[0] as int) < (b[0] as int));
                } else {
                    assert((a[0] as int) < (c[0] as int));
                }
            } else {
                lemma_seq_lt_trans(a.drop_first(), b.drop_first(), c.drop_first());
            }
        }
    }
}

/// Two distinct sequences are ordered one way or the other.
pub proof fn lemma_seq_lt_connex(a: Seq<char>, b: Seq<char>)
    requires
        a != b,
    ensures
        seq_lt(a, b) || seq_lt(b, a),
    decreases a.len(),
{
    if b.len() == 0 {
        if a.len() == 0 {
            assert(a =~= b);
        }
    } else if a.len() == 0 {
    } else if a[0] != b[0] {
        assert((a[0] as int) != (b[0] as int)) by {
            if (a[0] as int) == (b[0] as int) {
                assert((a[0] as u32) == (b[0] as u32));
                vstd::utf8::char_u32_cast(a[0], a[0] as u32);
                vstd::utf8::char_u32_cast(b[0], b[0] as u32);
            }
        }
    } else {
        assert(a.drop_first() != b.drop_first()) by {
            if a.drop_first() == b.drop_first() {
                assert(a.drop_first().len() == a.len() - 1);
                assert(b.drop_first().len() == b.len() - 1);
                assert(a.len() == b.len());
                assert forall|k: int| 0 <= k < a.len() implies a[k] == b[k] by {
                    if k > 0 {
                        assert(a.drop_first()[k - 1] == a[k]);
                        assert(b.drop_first()[k - 1] == b[k]);
                    }
                }
                assert(a =~= b);
            }
        }
        lemma_seq_lt_connex(a.drop_first(), b.drop_first());
    }
}

} // verus!

