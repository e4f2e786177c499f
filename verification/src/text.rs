//! Byte-level text helpers for the save format: decimal numerals and
//! separator-delimited fields, with round-trip lemmas connecting the
//! printed form back to the parsed value.

use vstd::prelude::*;

verus! {

use vstd::slice::slice_subrange;

/// Decimal digits of `n`, most significant first.
pub open spec fn digits_of(n: nat) -> Seq<u8>
    decreases n,
{
    if n < 10 {
        seq![(n + 48) as u8]
    } else {
        digits_of(n / 10).push(((n % 10) + 48) as u8)
    }
}

/// Decimal text of `i`: a minus sign for negative values, then digits.
pub open spec fn int_text(i: int) -> Seq<u8> {
    if i < 0 {
        seq![45u8] + digits_of((-i) as nat)
    } else {
        digits_of(i as nat)
    }
}

/// Whether `b` is an ASCII decimal digit.
pub open spec fn is_digit(b: u8) -> bool {
    48 <= b <= 57
}

/// Whether every byte of `s` is a decimal digit.
pub open spec fn all_digits(s: Seq<u8>) -> bool {
    forall|i: int| 0 <= i < s.len() ==> is_digit(#[trigger] s[i])
}

/// The number denoted by a digit string, most significant digit first.
pub open spec fn digits_val(s: Seq<u8>) -> nat
    decreases s.len(),
{
    if s.len() == 0 {
        0
    } else {
        (digits_val(s.drop_last()) * 10 + (s.last() - 48)) as nat
    }
}

/// What a digit string parses to as a `u64`, if anything.
pub open spec fn parse_u64_s(s: Seq<u8>) -> Option<u64> {
    if s.len() > 0 && all_digits(s) && digits_val(s) <= u64::MAX {
        Some(digits_val(s) as u64)
    } else {
        None
    }
}

/// What a (possibly signed) digit string parses to as an `i64`, if anything.
pub open spec fn parse_i64_s(s: Seq<u8>) -> Option<i64> {
    if s.len() >= 2 && s[0] == 45 {
        let t = s.skip(1);
        if all_digits(t) && digits_val(t) <= 9223372036854775808 {
            Some((-(digits_val(t) as int)) as i64)
        } else {
            None
        }
    } else if s.len() > 0 && all_digits(s) && digits_val(s) <= i64::MAX {
        Some(digits_val(s) as i64)
    } else {
        None
    }
}

/// What a digit string parses to as a `usize`, if anything.
pub open spec fn parse_usize_s(s: Seq<u8>) -> Option<usize> {
    if s.len() > 0 && all_digits(s) && digits_val(s) <= usize::MAX {
        Some(digits_val(s) as usize)
    } else {
        None
    }
}

/// Whether `b` occurs in `s`.
pub open spec fn contains_byte(s: Seq<u8>, b: u8) -> bool {
    exists|i: int| 0 <= i < s.len() && s[i] == b
}

/// The fields of `s` delimited by `sep`; always at least one field.
pub open spec fn split_on(s: Seq<u8>, sep: u8) -> Seq<Seq<u8>>
    decreases s.len(),
{
    if s.len() == 0 {
        seq![Seq::<u8>::empty()]
    } else if s[0] == sep {
        seq![Seq::<u8>::empty()] + split_on(s.skip(1), sep)
    } else {
        let rest = split_on(s.skip(1), sep);
        seq![seq![s[0]] + rest.first()] + rest.drop_first()
    }
}

/// A sequence of lines, each terminated by a newline byte.
pub open spec fn lines_text(lines: Seq<Seq<u8>>) -> Seq<u8>
    decreases lines.len(),
{
    if lines.len() == 0 {
        Seq::empty()
    } else {
        lines_text(lines.drop_last()) + lines.last() + seq![10u8]
    }
}

/// Fields joined with a separator between adjacent fields.
pub open spec fn joined_text(fields: Seq<Seq<u8>>, sep: u8) -> Seq<u8>
    decreases fields.len(),
{
    if fields.len() == 0 {
        Seq::empty()
    } else if fields.len() == 1 {
        fields[0]
    } else {
        joined_text(fields.drop_last(), sep) + seq![sep] + fields.last()
    }
}

/// A byte occurs in a concatenation exactly when it occurs in one of the
/// halves.
pub proof fn lemma_contains_concat(a: Seq<u8>, b: Seq<u8>, x: u8)
    ensures
        contains_byte(a + b, x) <==> (contains_byte(a, x) || contains_byte(b, x)),
{
    if contains_byte(a, x) {
        let i = choose|i: int| 0 <= i < a.len() && a[i] == x;
        assert((a + b)[i] == x);
    }
    if contains_byte(b, x) {
        let i = choose|i: int| 0 <= i < b.len() && b[i] == x;
        assert((a + b)[a.len() + i] == x);
    }
    if contains_byte(a + b, x) {
        let i = choose|i: int| 0 <= i < (a + b).len() && (a + b)[i] == x;
        if i < a.len() {
            assert(a[i] == x);
        } else {
            assert(b[i - a.len()] == x);
        }
    }
}

/// A joined field list contains only separator bytes and field bytes.
pub proof fn lemma_joined_free(fields: Seq<Seq<u8>>, sep: u8, x: u8)
    requires
        x != sep,
        forall|i: int| 0 <= i < fields.len() ==> !contains_byte(#[trigger] fields[i], x),
    ensures
        !contains_byte(joined_text(fields, sep), x),
    decreases fields.len(),
{
    if fields.len() == 0 {
    } else if fields.len() == 1 {
        assert(joined_text(fields, sep) == fields[0]);
    } else {
        lemma_joined_free(fields.drop_last(), sep, x);
        lemma_contains_concat(joined_text(fields.drop_last(), sep), seq![sep], x);
        lemma_contains_concat(joined_text(fields.drop_last(), sep) + seq![sep], fields.last(), x);
        assert(!contains_byte(seq![sep], x)) by {
            assert(forall|i: int| 0 <= i < 1 ==> seq![sep][i] == sep);
        }
    }
}

/// Joining one more field appends a separator and the field.
pub proof fn lemma_joined_push(fields: Seq<Seq<u8>>, f: Seq<u8>, sep: u8)
    ensures
        fields.len() == 0 ==> joined_text(fields.push(f), sep) == f,
        fields.len() >= 1 ==> joined_text(fields.push(f), sep) == joined_text(fields, sep)
            + seq![sep] + f,
{
    let whole = fields.push(f);
    assert(whole.drop_last() =~= fields);
    assert(whole.last() == f);
    if fields.len() == 0 {
        assert(joined_text(whole, sep) == whole[0]);
    }
}

/// The printed digits of `n` are digits, nonempty, and denote `n`.
pub proof fn lemma_digits_of(n: nat)
    ensures
        digits_of(n).len() >= 1,
        all_digits(digits_of(n)),
        digits_val(digits_of(n)) == n,
    decreases n,
{
    if n < 10 {
        let d = seq![(n + 48) as u8];
        assert(d.drop_last() =~= Seq::<u8>::empty());
        assert(digits_val(d) == (digits_val(Seq::<u8>::empty()) * 10 + (d.last() - 48)) as nat);
        assert(d.last() == (n + 48) as u8);
        assert(digits_val(digits_of(n)) == n);
    } else {
        lemma_digits_of(n / 10);
        let d = digits_of(n / 10);
        let whole = d.push(((n % 10) + 48) as u8);
        assert(whole.drop_last() =~= d);
        assert(digits_val(whole) == digits_val(d) * 10 + n % 10);
        assert(n / 10 * 10 + n % 10 == n) by (nonlinear_arith)
            requires
                n >= 0,
        ;
    }
}

/// The printed text of an integer denotes that integer.
pub proof fn lemma_int_text(i: int)
    requires
        i64::MIN <= i <= i64::MAX,
    ensures
        parse_i64_s(int_text(i)) == Some(i as i64),
{
    if i < 0 {
        lemma_digits_of((-i) as nat);
        let t = int_text(i);
        assert(t[0] == 45);
        assert(t.skip(1) =~= digits_of((-i) as nat));
    } else {
        lemma_digits_of(i as nat);
        let t = int_text(i);
        assert(t =~= digits_of(i as nat));
        assert(t[0] != 45 || !is_digit(45));
    }
}

/// The printed digits of a machine word denote it under the unsigned parsers.
pub proof fn lemma_nat_text(n: nat)
    requires
        n <= u64::MAX,
    ensures
        parse_u64_s(digits_of(n)) == Some(n as u64),
        n <= usize::MAX ==> parse_usize_s(digits_of(n)) == Some(n as usize),
{
    lemma_digits_of(n);
}

/// Every byte of a printed numeral is a digit or a minus sign, so numerals
/// never contain a separator byte.
pub proof fn lemma_int_text_bytes(i: int)
    ensures
        forall|k: int|
            0 <= k < int_text(i).len() ==> (is_digit(#[trigger] int_text(i)[k])
                || int_text(i)[k] == 45),
{
    if i < 0 {
        lemma_digits_of((-i) as nat);
    } else {
        lemma_digits_of(i as nat);
    }
}

/// A digit-string prefix denotes no more than the whole string.
pub proof fn lemma_digits_val_take(s: Seq<u8>, k: int)
    requires
        all_digits(s),
        0 <= k <= s.len(),
    ensures
        digits_val(s.take(k)) <= digits_val(s),
    decreases s.len() - k,
{
    if k < s.len() {
        lemma_digits_val_take(s, k + 1);
        let t = s.take(k + 1);
        assert(t.drop_last() =~= s.take(k));
        assert(digits_val(t) == digits_val(s.take(k)) * 10 + (t.last() - 48));
        assert(digits_val(s.take(k)) * 10 >= digits_val(s.take(k))) by (nonlinear_arith)
            requires
                digits_val(s.take(k)) >= 0,
        ;
    } else {
        assert(s.take(k) =~= s);
    }
}

/// Splitting never yields an empty field list.
pub proof fn lemma_split_len(s: Seq<u8>, sep: u8)
    ensures
        split_on(s, sep).len() >= 1,
    decreases s.len(),
{
    if s.len() > 0 {
        lemma_split_len(s.skip(1), sep);
    }
}

/// A field list of one: a separator-free string splits to itself.
pub proof fn lemma_split_whole(s: Seq<u8>, sep: u8)
    requires
        !contains_byte(s, sep),
    ensures
        split_on(s, sep) =~~= seq![s],
    decreases s.len(),
{
    if s.len() == 0 {
        assert(split_on(s, sep) =~~= seq![s]);
    } else {
        assert(s[0] != sep);
        assert(!contains_byte(s.skip(1), sep)) by {
            assert(forall|i: int|
                0 <= i < s.skip(1).len() ==> #[trigger] s.skip(1)[i] == s[i + 1]);
        }
        lemma_split_whole(s.skip(1), sep);
        let rest = split_on(s.skip(1), sep);
        assert(seq![s[0]] + rest.first() =~= s);
        assert(split_on(s, sep) =~~= seq![s]);
    }
}

/// Splitting takes a separator-free leading field off the front.
pub proof fn lemma_split_prefix(l: Seq<u8>, rest: Seq<u8>, sep: u8)
    requires
        !contains_byte(l, sep),
    ensures
        split_on(l + seq![sep] + rest, sep) =~~= seq![l] + split_on(rest, sep),
    decreases l.len(),
{
    let s = l + seq![sep] + rest;
    if l.len() == 0 {
        assert(s[0] == sep);
        assert(s.skip(1) =~= rest);
        assert(split_on(s, sep) =~~= seq![l] + split_on(rest, sep));
    } else {
        assert(s[0] == l[0]);
        assert(s[0] != sep);
        assert(!contains_byte(l.skip(1), sep)) by {
            assert(forall|i: int|
                0 <= i < l.skip(1).len() ==> #[trigger] l.skip(1)[i] == l[i + 1]);
        }
        lemma_split_prefix(l.skip(1), rest, sep);
        assert(s.skip(1) =~= l.skip(1) + seq![sep] + rest);
        let inner = split_on(s.skip(1), sep);
        lemma_split_len(rest, sep);
        assert(inner =~~= seq![l.skip(1)] + split_on(rest, sep));
        assert(inner.first() == l.skip(1));
        assert(seq![s[0]] + inner.first() =~= l);
        assert(inner.drop_first() =~~= split_on(rest, sep));
        assert(split_on(s, sep) =~~= seq![l] + split_on(rest, sep));
    }
}

/// Unfolding `lines_text` from the front.
pub proof fn lemma_lines_text_first(lines: Seq<Seq<u8>>)
    requires
        lines.len() >= 1,
    ensures
        lines_text(lines) =~= lines.first() + seq![10u8] + lines_text(lines.drop_first()),
    decreases lines.len(),
{
    if lines.len() == 1 {
        assert(lines.drop_last() =~= Seq::<Seq<u8>>::empty());
        assert(lines.drop_first() =~= Seq::<Seq<u8>>::empty());
        assert(lines.last() == lines.first());
    } else {
        lemma_lines_text_first(lines.drop_last());
        assert(lines.drop_last().first() == lines.first());
        assert(lines.drop_last().drop_first() =~= lines.drop_first().drop_last());
        assert(lines.drop_first().last() == lines.last());
    }
}

/// Splitting a newline-terminated line list on newlines recovers the lines,
/// plus one empty trailing field.
pub proof fn lemma_split_lines(lines: Seq<Seq<u8>>)
    requires
        forall|i: int| 0 <= i < lines.len() ==> !contains_byte(#[trigger] lines[i], 10),
    ensures
        split_on(lines_text(lines), 10) =~~= lines + seq![Seq::<u8>::empty()],
    decreases lines.len(),
{
    if lines.len() == 0 {
        assert(lines_text(lines) =~= Seq::<u8>::empty());
    } else {
        lemma_lines_text_first(lines);
        lemma_split_lines(lines.drop_first());
        lemma_split_prefix(lines.first(), lines_text(lines.drop_first()), 10);
        assert(split_on(lines_text(lines), 10) =~~= seq![lines.first()] + (lines.drop_first()
            + seq![Seq::<u8>::empty()]));
    }
}

/// Unfolding `joined_text` from the front.
pub proof fn lemma_joined_text_first(fields: Seq<Seq<u8>>, sep: u8)
    requires
        fields.len() >= 2,
    ensures
        joined_text(fields, sep) =~= fields.first() + seq![sep] + joined_text(
            fields.drop_first(),
            sep,
        ),
    decreases fields.len(),
{
    assert(joined_text(fields, sep) == joined_text(fields.drop_last(), sep) + seq![sep]
        + fields.last());
    if fields.len() == 2 {
        assert(fields.drop_last() =~= seq![fields.first()]);
        assert(fields.drop_first() =~= seq![fields.last()]);
        assert(joined_text(seq![fields.first()], sep) == fields.first());
        assert(joined_text(seq![fields.last()], sep) == fields.last());
    } else {
        lemma_joined_text_first(fields.drop_last(), sep);
        assert(fields.drop_last().first() == fields.first());
        assert(fields.drop_last().drop_first() =~= fields.drop_first().drop_last());
        assert(fields.drop_first().last() == fields.last());
        assert(fields.drop_first().len() >= 2);
        assert(joined_text(fields.drop_first(), sep) == joined_text(
            fields.drop_first().drop_last(),
            sep,
        ) + seq![sep] + fields.drop_first().last());
    }
}

/// Splitting a separator-joined field list recovers the fields.
pub proof fn lemma_split_joined(fields: Seq<Seq<u8>>, sep: u8)
    requires
        fields.len() >= 1,
        forall|i: int| 0 <= i < fields.len() ==> !contains_byte(#[trigger] fields[i], sep),
    ensures
        split_on(joined_text(fields, sep), sep) =~~= fields,
    decreases fields.len(),
{
    if fields.len() == 1 {
        lemma_split_whole(fields[0], sep);
        assert(joined_text(fields, sep) == fields[0]);
    } else {
        lemma_joined_text_first(fields, sep);
        lemma_split_joined(fields.drop_first(), sep);
        lemma_split_prefix(fields.first(), joined_text(fields.drop_first(), sep), sep);
    }
}

/// Writing one more line appends the line and a newline byte.
pub proof fn lemma_lines_push(ls: Seq<Seq<u8>>, l: Seq<u8>)
    ensures
        lines_text(ls.push(l)) == lines_text(ls) + l + seq![10u8],
{
    assert(ls.push(l).drop_last() =~= ls);
    assert(ls.push(l).last() == l);
}

/// Append a record and its terminating newline to `out`.
pub fn append_line(out: &mut Vec<u8>, line: Vec<u8>)
    ensures
        final(out)@ == old(out)@ + line@ + seq![10u8],
{
    let mut line = line;
    let ghost lv = line@;
    out.append(&mut line);
    out.push(10);
    assert(final(out)@ =~= old(out)@ + lv + seq![10u8]);
}

/// Append the decimal digits of `n` to `out`.
pub fn push_digits(n: u64, out: &mut Vec<u8>)
    ensures
        final(out)@ == old(out)@ + digits_of(n as nat),
    decreases n,
{
    if n < 10 {
        out.push((n as u8) + 48);
    } else {
        push_digits(n / 10, out);
        out.push(((n % 10) as u8) + 48);
        assert(final(out)@ =~= old(out)@ + digits_of(n as nat));
    }
}

/// Append the decimal text of `i` to `out`.
pub fn push_int(i: i64, out: &mut Vec<u8>)
    ensures
        final(out)@ == old(out)@ + int_text(i as int),
{
    if i < 0 {
        out.push(45);
        let m: u64 = if i == i64::MIN {
            9223372036854775808u64
        } else {
            (-i) as u64
        };
        push_digits(m, out);
        assert(final(out)@ =~= old(out)@ + int_text(i as int));
    } else {
        push_digits(i as u64, out);
    }
}

/// Parse a decimal digit string as a `u64`.
pub fn parse_u64(s: &[u8]) -> (r: Option<u64>)
    ensures
        r == parse_u64_s(s@),
{
    let n = s.len();
    if n == 0 {
        return None;
    }
    let mut acc: u64 = 0;
    let mut k: usize = 0;
    while k < n
        invariant
            0 <= k <= n,
            n == s@.len(),
            all_digits(s@.take(k as int)),
            acc as nat == digits_val(s@.take(k as int)),
        decreases n - k,
    {
        let b = s[k];
        if b < 48 || b > 57 {
            assert(!is_digit(s@[k as int]));
            return None;
        }
        let d: u64 = (b - 48) as u64;
        proof {
            assert(s@.take(k + 1).drop_last() =~= s@.take(k as int));
        }
        let hi = acc.checked_mul(10);
        match hi {
            Some(h) => {
                let sum = h.checked_add(d);
                match sum {
                    Some(v) => {
                        acc = v;
                    },
                    None => {
                        proof {
                            assert(digits_val(s@.take(k + 1)) > u64::MAX);
                            if all_digits(s@) {
                                lemma_digits_val_take(s@, k + 1);
                            }
                        }
                        return None;
                    },
                }
            },
            None => {
                proof {
                    assert(acc * 10 > u64::MAX);
                    assert(digits_val(s@.take(k + 1)) > u64::MAX);
                    if all_digits(s@) {
                        lemma_digits_val_take(s@, k + 1);
                    }
                }
                return None;
            },
        }
        k = k + 1;
    }
    proof {
        assert(s@.take(n as int) =~= s@);
    }
    Some(acc)
}

/// Parse a decimal digit string as a `usize`.
pub fn parse_usize(s: &[u8]) -> (r: Option<usize>)
    ensures
        r == parse_usize_s(s@),
{
    match parse_u64(s) {
        Some(v) => {
            if v <= usize::MAX as u64 {
                Some(v as usize)
            } else {
                None
            }
        },
        None => None,
    }
}

/// Parse a decimal digit string, with an optional leading minus sign, as an
/// `i64`.
pub fn parse_i64(s: &[u8]) -> (r: Option<i64>)
    ensures
        r == parse_i64_s(s@),
{
    if s.len() >= 2 && s[0] == 45 {
        let rest = slice_subrange(s, 1, s.len());
        assert(rest@ =~= s@.skip(1));
        match parse_u64(rest) {
            Some(v) => {
                if v < 9223372036854775808u64 {
                    Some(-(v as i64))
                } else if v == 9223372036854775808u64 {
                    Some(i64::MIN)
                } else {
                    None
                }
            },
            None => {
                proof {
                    if s@.skip(1).len() > 0 && all_digits(s@.skip(1)) {
                        assert(digits_val(s@.skip(1)) > u64::MAX);
                    }
                }
                None
            },
        }
    } else {
        match parse_u64(s) {
            Some(v) => {
                if v <= i64::MAX as u64 {
                    Some(v as i64)
                } else {
                    None
                }
            },
            None => None,
        }
    }
}

/// Whether two byte strings hold the same bytes.
pub fn bytes_eq(a: &[u8], b: &[u8]) -> (r: bool)
    ensures
        r == (a@ =~= b@),
{
    if a.len() != b.len() {
        return false;
    }
    let n = a.len();
    let mut k: usize = 0;
    while k < n
        invariant
            0 <= k <= n,
            n == a@.len() == b@.len(),
            forall|i: int| 0 <= i < k ==> a@[i] == b@[i],
        decreases n - k,
    {
        if a[k] != b[k] {
            return false;
        }
        k = k + 1;
    }
    true
}

/// The fields of `s` delimited by `sep`.
pub fn split_bytes(s: &[u8], sep: u8) -> (parts: Vec<Vec<u8>>)
    ensures
        parts.deep_view() == split_on(s@, sep),
{
    let n = s.len();
    let mut parts: Vec<Vec<u8>> = Vec::new();
    parts.push(Vec::new());
    assert(parts.deep_view() =~~= split_on(s@.skip(n as int), sep));
    let mut pos: usize = n;
    while pos > 0
        invariant
            0 <= pos <= n,
            n == s@.len(),
            parts.deep_view() == split_on(s@.skip(pos as int), sep),
            parts.len() >= 1,
        decreases pos,
    {
        let b = s[pos - 1];
        if b == sep {
            parts.insert(0, Vec::new());
        } else {
            let mut first = parts.remove(0);
            first.insert(0, b);
            parts.insert(0, first);
        }
        pos = pos - 1;
        proof {
            assert(s@.skip(pos as int).skip(1) =~= s@.skip(pos + 1));
            assert(s@.skip(pos as int)[0] == s@[pos as int]);
            if b == sep {
                assert(parts.deep_view() =~~= split_on(s@.skip(pos as int), sep));
            } else {
                lemma_split_len(s@.skip(pos + 1), sep);
                assert(parts.deep_view() =~~= split_on(s@.skip(pos as int), sep));
            }
        }
    }
    proof {
        assert(s@.skip(0) =~= s@);
    }
    parts
}

} // verus!
