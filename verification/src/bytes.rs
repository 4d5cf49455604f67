//! Byte-level text helpers for the line-oriented ASCII wire protocol:
//! substring search, line splitting, decimal rendering and parsing.

use vstd::prelude::*;

verus! {

/// `needle` occurs in `hay` starting at index `i`.
pub open spec fn is_match_at(hay: Seq<u8>, needle: Seq<u8>, i: int) -> bool {
    0 <= i && i + needle.len() <= hay.len() && hay.subrange(i, i + needle.len()) == needle
}

/// `needle` occurs somewhere in `hay` as a contiguous run.
pub open spec fn contains_seq(hay: Seq<u8>, needle: Seq<u8>) -> bool {
    exists|i: int| is_match_at(hay, needle, i)
}

/// Substring search: does `hay` contain `needle` as a contiguous run?
pub fn contains(hay: &[u8], needle: &[u8]) -> (r: bool)
    ensures
        r == contains_seq(hay@, needle@),
{
    if needle.len() > hay.len() {
        return false;
    }
    if needle.len() == 0 {
        proof {
            assert(hay@.subrange(0, 0) =~= needle@);
            assert(is_match_at(hay@, needle@, 0));
        }
        return true;
    }
    let hn: usize = hay.len();
    let nn: usize = needle.len();
    let end = hn - nn;
    let mut i: usize = 0;
    while i <= end
        invariant
            hn == hay@.len(),
            nn == needle@.len(),
            1 <= nn <= hn,
            end == hn - nn,
            i <= end + 1,
            forall|k: int| 0 <= k < i ==> !is_match_at(hay@, needle@, k),
        decreases end + 1 - i,
    {
        let mut j: usize = 0;
        let mut matched = true;
        while matched && j < nn
            invariant
                hn == hay@.len(),
                nn == needle@.len(),
                j <= nn,
                i + nn <= hn,
                matched ==> forall|k: int| 0 <= k < j ==> hay@[i + k] == needle@[k],
                !matched ==> !is_match_at(hay@, needle@, i as int),
            decreases needle@.len() - j,
        {
            if hay[i + j] != needle[j] {
                proof {
                    if is_match_at(hay@, needle@, i as int) {
                        assert(hay@.subrange(i as int, i + needle@.len())[j as int] == hay@[i + j]);
                    }
                }
                matched = false;
                j = nn;
            } else {
                j += 1;
            }
        }
        if matched {
            proof {
                assert(hay@.subrange(i as int, i + needle@.len()) =~= needle@);
                assert(is_match_at(hay@, needle@, i as int));
            }
            return true;
        }
        i += 1;
    }
    proof {
        assert forall|k: int| !is_match_at(hay@, needle@, k) by {
            if 0 <= k && k + needle@.len() <= hay@.len() {
                assert(k < i);
            }
        }
    }
    false
}

/// Every byte is seven-bit ASCII.
pub open spec fn is_ascii_bytes(s: Seq<u8>) -> bool {
    forall|i: int| 0 <= i < s.len() ==> s[i] < 128
}

/// Checks that the buffer holds only seven-bit ASCII bytes, the alphabet of
/// the module's line-oriented replies.
pub fn ascii_check(s: &[u8]) -> (r: bool)
    ensures
        r == is_ascii_bytes(s@),
{
    let mut i: usize = 0;
    while i < s.len()
        invariant
            i <= s@.len(),
            forall|k: int| 0 <= k < i ==> s@[k] < 128,
        decreases s@.len() - i,
    {
        if s[i] >= 128 {
            return false;
        }
        i += 1;
    }
    true
}

/// Decimal digits of `n`, most significant first.
pub open spec fn dec_digits(n: nat) -> Seq<u8>
    decreases n,
{
    if n < 10 {
        seq![(48 + n) as u8]
    } else {
        dec_digits(n / 10).push((48 + n % 10) as u8)
    }
}

/// Appends the decimal rendering of `n` to `out`.
pub fn push_dec_u32(out: &mut Vec<u8>, n: u32)
    ensures
        final(out)@ == old(out)@ + dec_digits(n as nat),
    decreases n,
{
    if n < 10 {
        out.push((48 + n) as u8);
        proof {
            assert(out@ =~= old(out)@ + dec_digits(n as nat));
        }
    } else {
        push_dec_u32(out, n / 10);
        out.push(48 + (n % 10) as u8);
        proof {
            assert(out@ =~= old(out)@ + dec_digits(n as nat));
        }
    }
}

/// Powers of ten, for stating how wide a decimal rendering can get.
pub open spec fn ten_pow(k: nat) -> nat
    decreases k,
{
    if k == 0 {
        1
    } else {
        10 * ten_pow((k - 1) as nat)
    }
}

/// A value below `10^k` renders in at least one and at most `k` digits.
pub proof fn lemma_dec_digits_len(n: nat, k: nat)
    requires
        k >= 1,
        n < ten_pow(k),
    ensures
        1 <= dec_digits(n).len() <= k,
    decreases k,
{
    if n >= 10 {
        if k == 1 {
            assert(ten_pow(0) == 1);
            assert(ten_pow(1) == 10);
        }
        assert(ten_pow(k) == 10 * ten_pow((k - 1) as nat));
        assert(n / 10 < ten_pow((k - 1) as nat)) by (nonlinear_arith)
            requires
                n < 10 * ten_pow((k - 1) as nat),
        ;
        lemma_dec_digits_len(n / 10, (k - 1) as nat);
    }
}

/// Index of the first occurrence of `b` in `s`, or `s.len()` when absent.
pub open spec fn first_byte(s: Seq<u8>, b: u8) -> int
    decreases s.len(),
{
    if s.len() == 0 {
        0
    } else if s[0] == b {
        0
    } else {
        1 + first_byte(s.drop_first(), b)
    }
}

/// `first_byte` is pinned down by what the caller scanned: nothing before
/// `k`, and either `b` or the end at `k`.
pub proof fn lemma_first_byte_at(s: Seq<u8>, b: u8, k: int)
    requires
        0 <= k <= s.len(),
        forall|m: int| 0 <= m < k ==> s[m] != b,
        k < s.len() ==> s[k] == b,
    ensures
        first_byte(s, b) == k,
    decreases s.len(),
{
    if s.len() != 0 && s[0] != b {
        let t = s.drop_first();
        assert forall|m: int| 0 <= m < k - 1 implies t[m] != b by {
            assert(t[m] == s[m + 1]);
        }
        if k - 1 < t.len() {
            assert(t[k - 1] == s[k]);
        }
        lemma_first_byte_at(t, b, k - 1);
    }
}

/// A line with its trailing carriage return removed.
pub open spec fn strip_cr(line: Seq<u8>) -> Seq<u8> {
    if line.len() > 0 && line.last() == 13 {
        line.drop_last()
    } else {
        line
    }
}

/// The lines of `s`: split at each line feed, each line losing the line feed
/// and one trailing carriage return; a final line feed opens no empty line.
pub open spec fn split_lines(s: Seq<u8>) -> Seq<Seq<u8>>
    decreases s.len(),
{
    if s.len() == 0 {
        seq![]
    } else if 0 <= first_byte(s, 10) < s.len() {
        seq![strip_cr(s.take(first_byte(s, 10)))] + split_lines(s.skip(first_byte(s, 10) + 1))
    } else {
        seq![strip_cr(s)]
    }
}

/// The fields of `s` separated by `sep`; an empty input is one empty field.
pub open spec fn split_at_byte(s: Seq<u8>, sep: u8) -> Seq<Seq<u8>>
    decreases s.len(),
{
    if 0 <= first_byte(s, sep) < s.len() {
        seq![s.take(first_byte(s, sep))] + split_at_byte(s.skip(first_byte(s, sep) + 1), sep)
    } else {
        seq![s]
    }
}

/// Splits `s` into its lines, as `split_lines` describes.
pub fn lines_of(s: &[u8]) -> (r: Vec<Vec<u8>>)
    ensures
        r.deep_view() == split_lines(s@),
{
    let mut out: Vec<Vec<u8>> = Vec::new();
    let mut i: usize = 0;
    proof {
        assert(s@.skip(0) =~= s@);
    }
    while i < s.len()
        invariant
            i <= s@.len(),
            out.deep_view() + split_lines(s@.skip(i as int)) == split_lines(s@),
        decreases s@.len() - i,
    {
        let ghost t = s@.skip(i as int);
        let mut j: usize = i;
        while j < s.len() && s[j] != 10
            invariant
                i <= j <= s@.len(),
                forall|m: int| i <= m < j ==> s@[m] != 10,
            decreases s@.len() - j,
        {
            j += 1;
        }
        proof {
            assert forall|m: int| 0 <= m < j - i implies t[m] != 10 by {
                assert(t[m] == s@[i + m]);
            }
            if j < s@.len() {
                assert(t[j - i] == s@[j as int]);
            }
            lemma_first_byte_at(t, 10, j - i);
        }
        let mut line_end = j;
        if j > i && s[j - 1] == 13 {
            line_end = j - 1;
        }
        let line = vstd::slice::slice_to_vec(vstd::slice::slice_subrange(s, i, line_end));
        proof {
            if j == s@.len() {
                assert(t.len() > 0);
                assert(first_byte(t, 10) == t.len());
                assert(split_lines(t) =~= seq![strip_cr(t)]);
                if i < j && s@[j - 1] == 13 {
                    assert(t.last() == s@[j - 1]);
                    assert(line@ =~= strip_cr(t));
                } else {
                    if t.len() > 0 && t.last() == 13 {
                        assert(s@[j - 1] == t.last());
                    }
                    assert(line@ =~= strip_cr(t));
                }
            } else {
                let k = (j - i) as int;
                assert(split_lines(t) =~= seq![strip_cr(t.take(k))] + split_lines(t.skip(k + 1)));
                let tk = t.take(k);
                assert(tk =~= s@.subrange(i as int, j as int));
                if i < j && s@[j - 1] == 13 {
                    assert(tk.last() == s@[j - 1]);
                    assert(line@ =~= strip_cr(tk));
                } else {
                    if tk.len() > 0 && tk.last() == 13 {
                        assert(s@[j - 1] == tk.last());
                    }
                    assert(line@ =~= strip_cr(tk));
                }
                assert(t.skip(k + 1) =~= s@.skip(j + 1));
            }
        }
        let ghost old_out = out.deep_view();
        let ghost old_vv = out@;
        out.push(line);
        proof {
            assert(line.deep_view() =~= line@);
            assert forall|q: int| 0 <= q < out.deep_view().len() implies out.deep_view()[q]
                == old_out.push(line@)[q] by {
                if q < old_vv.len() {
                    assert(out@[q] == old_vv[q]);
                    assert(old_out[q] == old_vv[q].deep_view());
                } else {
                    assert(out@[q] == line);
                }
            }
            assert(out.deep_view() =~= old_out.push(line@));
        }
        if j < s.len() {
            i = j + 1;
        } else {
            i = j;
        }
        proof {
            assert(out.deep_view() + split_lines(s@.skip(i as int)) =~= old_out + split_lines(t));
        }
    }
    proof {
        assert(s@.skip(i as int) =~= Seq::<u8>::empty());
        assert(out.deep_view() + split_lines(s@.skip(i as int)) =~= out.deep_view());
    }
    out
}

/// Splits `s` at `sep`, as `split_at_byte` describes.
pub fn split_fields(s: &[u8], sep: u8) -> (r: Vec<Vec<u8>>)
    ensures
        r.deep_view() == split_at_byte(s@, sep),
        r.deep_view().len() > 0,
{
    let mut out: Vec<Vec<u8>> = Vec::new();
    let mut i: usize = 0;
    proof {
        assert(s@.skip(0) =~= s@);
    }
    loop
        invariant
            i <= s@.len(),
            out.deep_view() + split_at_byte(s@.skip(i as int), sep) == split_at_byte(s@, sep),
            out.deep_view().len() + split_at_byte(s@.skip(i as int), sep).len() > 0,
        decreases s@.len() - i + 1,
    {
        let ghost t = s@.skip(i as int);
        let mut j: usize = i;
        while j < s.len() && s[j] != sep
            invariant
                i <= j <= s@.len(),
                forall|m: int| i <= m < j ==> s@[m] != sep,
            decreases s@.len() - j,
        {
            j += 1;
        }
        proof {
            assert forall|m: int| 0 <= m < j - i implies t[m] != sep by {
                assert(t[m] == s@[i + m]);
            }
            if j < s@.len() {
                assert(t[j - i] == s@[j as int]);
            }
            lemma_first_byte_at(t, sep, j - i);
        }
        let field = vstd::slice::slice_to_vec(vstd::slice::slice_subrange(s, i, j));
        let ghost old_out = out.deep_view();
        let ghost old_vv = out@;
        out.push(field);
        proof {
            assert(field.deep_view() =~= field@);
            assert forall|q: int| 0 <= q < out.deep_view().len() implies out.deep_view()[q]
                == old_out.push(field@)[q] by {
                if q < old_vv.len() {
                    assert(out@[q] == old_vv[q]);
                    assert(old_out[q] == old_vv[q].deep_view());
                } else {
                    assert(out@[q] == field);
                }
            }
            assert(out.deep_view() =~= old_out.push(field@));
        }
        if j < s.len() {
            proof {
                let k = (j - i) as int;
                assert(split_at_byte(t, sep) =~= seq![t.take(k)] + split_at_byte(
                    t.skip(k + 1),
                    sep,
                ));
                assert(t.take(k) =~= field@);
                assert(t.skip(k + 1) =~= s@.skip(j + 1));
                assert(out.deep_view() + split_at_byte(s@.skip(j + 1), sep) =~= old_out
                    + split_at_byte(t, sep));
            }
            i = j + 1;
        } else {
            proof {
                assert(first_byte(t, sep) == t.len());
                assert(split_at_byte(t, sep) =~= seq![t]);
                assert(field@ =~= t);
                assert(out.deep_view() =~= old_out + split_at_byte(t, sep));
            }
            return out;
        }
    }
}

/// Surrounding double quotes, however many, removed from both ends.
pub open spec fn trim_quotes(s: Seq<u8>) -> Seq<u8>
    decreases s.len(),
{
    if s.len() > 0 && s[0] == 34 {
        trim_quotes(s.drop_first())
    } else if s.len() > 0 && s.last() == 34 {
        trim_quotes(s.drop_last())
    } else {
        s
    }
}

/// Copies `s` with surrounding double quotes removed.
pub fn trim_quotes_vec(s: &[u8]) -> (r: Vec<u8>)
    ensures
        r@ == trim_quotes(s@),
    decreases s@.len(),
{
    if s.len() > 0 && s[0] == 34 {
        let rest = vstd::slice::slice_subrange(s, 1, s.len());
        proof {
            assert(rest@ =~= s@.drop_first());
        }
        trim_quotes_vec(rest)
    } else if s.len() > 0 && s[s.len() - 1] == 34 {
        let rest = vstd::slice::slice_subrange(s, 0, s.len() - 1);
        proof {
            assert(rest@ =~= s@.drop_last());
        }
        trim_quotes_vec(rest)
    } else {
        vstd::slice::slice_to_vec(s)
    }
}

/// Every byte is an ASCII decimal digit.
pub open spec fn all_digits(s: Seq<u8>) -> bool {
    forall|i: int| 0 <= i < s.len() ==> 48 <= #[trigger] s[i] <= 57
}

/// The number the digit string denotes.
pub open spec fn dec_value(s: Seq<u8>) -> nat
    decreases s.len(),
{
    if s.len() == 0 {
        0
    } else {
        10 * dec_value(s.drop_last()) + (if s.last() >= 48 {
            (s.last() - 48) as nat
        } else {
            0
        })
    }
}

/// Outcome of reading a decimal field.
pub enum DecParse {
    /// The field is empty or holds a byte that is no digit.
    NotNumeric,
    /// A well-formed number too large for 32 bits.
    TooBig,
    /// The number itself.
    Value(u32),
}

/// Reads an unsigned decimal field.
pub fn parse_dec(s: &[u8]) -> (r: DecParse)
    ensures
        match r {
            DecParse::NotNumeric => !(all_digits(s@) && s@.len() > 0),
            DecParse::TooBig => all_digits(s@) && s@.len() > 0 && dec_value(s@) > u32::MAX,
            DecParse::Value(v) => all_digits(s@) && s@.len() > 0 && v == dec_value(s@),
        },
{
    if s.len() == 0 {
        return DecParse::NotNumeric;
    }
    let mut acc: u64 = 0;
    let mut i: usize = 0;
    proof {
        assert(s@.take(0) =~= Seq::<u8>::empty());
    }
    while i < s.len()
        invariant
            i <= s@.len(),
            s@.len() > 0,
            all_digits(s@.take(i as int)),
            dec_value(s@.take(i as int)) <= u32::MAX ==> acc == dec_value(s@.take(i as int)),
            dec_value(s@.take(i as int)) > u32::MAX ==> acc == 0x1_0000_0000,
            acc <= 0x1_0000_0000,
        decreases s@.len() - i,
    {
        let b = s[i];
        if b < 48 || b > 57 {
            return DecParse::NotNumeric;
        }
        let d: u64 = (b - 48) as u64;
        let ghost pre = s@.take(i as int);
        let ghost cur = s@.take(i + 1);
        proof {
            assert(cur.drop_last() =~= pre);
            assert(cur.last() == s@[i as int]);
            assert(dec_value(cur) == 10 * dec_value(pre) + (b - 48));
        }
        acc = acc * 10 + d;
        if acc > 0xFFFF_FFFF {
            acc = 0x1_0000_0000;
        }
        proof {
            if dec_value(pre) > u32::MAX {
                assert(dec_value(cur) >= 10 * dec_value(pre));
                assert(dec_value(cur) > u32::MAX);
            }
        }
        i += 1;
    }
    proof {
        assert(s@.take(i as int) =~= s@);
    }
    if acc > 0xFFFF_FFFF {
        DecParse::TooBig
    } else {
        DecParse::Value(acc as u32)
    }
}

/// Appends all of `s` to `out`.
pub fn push_all(out: &mut Vec<u8>, s: &[u8])
    ensures
        final(out)@ == old(out)@ + s@,
{
    let mut i: usize = 0;
    while i < s.len()
        invariant
            i <= s@.len(),
            out@ == old(out)@ + s@.take(i as int),
        decreases s@.len() - i,
    {
        out.push(s[i]);
        proof {
            assert(old(out)@ + s@.take(i + 1) =~= (old(out)@ + s@.take(i as int)).push(
                s@[i as int],
            ));
        }
        i += 1;
    }
    proof {
        assert(s@.take(s@.len() as int) =~= s@);
    }
}

} // verus!
