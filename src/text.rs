//! Byte-level text helpers: decimal numbers, ASCII case folding, splitting and
//! trimming.
use vstd::prelude::*;

use crate::codec::{copy_range, push_all};

verus! {

/// Whether `c` is an ASCII decimal digit.
pub open spec fn is_digit(c: u8) -> bool {
    48 <= c <= 57
}

/// Whether every byte of `s` is a decimal digit.
pub open spec fn all_digits(s: Seq<u8>) -> bool {
    forall|i: int| 0 <= i < s.len() ==> is_digit(#[trigger] s[i])
}

/// The number that a string of decimal digits spells.
pub open spec fn decimal_value(s: Seq<u8>) -> nat
    decreases s.len(),
{
    if s.len() == 0 {
        0
    } else {
        decimal_value(s.drop_last()) * 10 + (s.last() - 48) as nat
    }
}

/// The shortest decimal spelling of `n`.
pub open spec fn decimal(n: nat) -> Seq<u8>
    decreases n,
{
    if n < 10 {
        seq![(48 + n) as u8]
    } else {
        decimal(n / 10).push((48 + n % 10) as u8)
    }
}

/// A decimal spelling is made of digits, is not empty, and spells its number.
pub proof fn lemma_decimal(n: nat)
    ensures
        all_digits(decimal(n)),
        1 <= decimal(n).len(),
        decimal_value(decimal(n)) == n,
        n < 10 ==> decimal(n).len() == 1,
        n >= 10 ==> decimal(n)[0] != 48,
    decreases n,
{
    if n >= 10 {
        lemma_decimal(n / 10);
        let s = decimal(n);
        assert(s.drop_last() == decimal(n / 10));
        assert(n == (n / 10) * 10 + n % 10);
        assert(s.last() == (48 + n % 10) as u8);
        assert(((48 + n % 10) as u8) as int == 48 + n % 10);
        assert(decimal_value(s) == decimal_value(decimal(n / 10)) * 10 + (n % 10));
        assert(decimal_value(decimal(n / 10)) * 10 == (n / 10) * 10);
        if n / 10 >= 10 {
            assert(s[0] == decimal(n / 10)[0]);
        } else {
            assert(decimal(n / 10).len() == 1);
            assert(s[0] == decimal(n / 10)[0]);
        }
    } else {
        let s = decimal(n);
        assert(s.drop_last() =~= Seq::<u8>::empty());
        assert(decimal_value(s.drop_last()) == 0);
        assert(s.last() == (48 + n) as u8);
    }
}

/// A longer run of digits spells at least as much as its prefix.
pub proof fn lemma_decimal_prefix_le(s: Seq<u8>, i: int)
    requires
        0 <= i <= s.len(),
        all_digits(s),
    ensures
        decimal_value(s.subrange(0, i)) <= decimal_value(s),
    decreases s.len() - i,
{
    if i < s.len() {
        lemma_decimal_prefix_le(s, i + 1);
        let t = s.subrange(0, i + 1);
        assert(t.drop_last() == s.subrange(0, i));
        assert(is_digit(s[i]));
    } else {
        assert(s.subrange(0, i) == s);
    }
}

/// Reads a run of decimal digits whose value is at most `max`. The result is
/// `None` when `s` is empty, holds anything but digits, or spells more than `max`.
pub fn parse_decimal(s: &[u8], max: u64) -> (r: Option<u64>)
    requires
        max <= 0xffff_ffff,
    ensures
        r is Some <==> (1 <= s@.len() && all_digits(s@) && decimal_value(s@) <= max),
        r matches Some(v) ==> v == decimal_value(s@),
{
    if s.len() == 0 {
        return None;
    }
    let mut acc: u64 = 0;
    let mut i: usize = 0;
    while i < s.len()
        invariant
            i <= s@.len(),
            max <= 0xffff_ffff,
            all_digits(s@.subrange(0, i as int)),
            acc == decimal_value(s@.subrange(0, i as int)),
            acc <= max,
        decreases s@.len() - i,
    {
        let c = s[i];
        if c < 48 || c > 57 {
            return None;
        }
        acc = acc * 10 + (c - 48) as u64;
        assert(s@.subrange(0, i + 1).drop_last() == s@.subrange(0, i as int));
        i = i + 1;
        assert(all_digits(s@.subrange(0, i as int))) by {
            assert forall|k: int| 0 <= k < i implies is_digit(#[trigger] s@.subrange(0, i as int)[k]) by {
                if k < i - 1 {
                    assert(s@.subrange(0, i as int)[k] == s@.subrange(0, i - 1)[k]);
                }
            }
        }
        if acc > max {
            proof {
                if all_digits(s@) {
                    lemma_decimal_prefix_le(s@, i as int);
                }
            }
            return None;
        }
    }
    assert(s@.subrange(0, s@.len() as int) == s@);
    Some(acc)
}

/// Writes the decimal spelling of `n`.
pub fn write_decimal(out: &mut Vec<u8>, n: u64)
    ensures
        final(out)@ == old(out)@ + decimal(n as nat),
    decreases n,
{
    if n < 10 {
        out.push(48 + n as u8);
        assert(old(out)@.push((48 + n) as u8) == old(out)@ + decimal(n as nat));
    } else {
        write_decimal(out, n / 10);
        out.push(48 + (n % 10) as u8);
        assert(decimal(n as nat) == decimal((n / 10) as nat).push((48 + n % 10) as u8));
        assert(old(out)@ + decimal((n / 10) as nat) + seq![(48 + n % 10) as u8] =~= old(out)@ + decimal(n as nat));
    }
}

/// ASCII lower case of one byte.
pub open spec fn lower(c: u8) -> u8 {
    if 65 <= c <= 90 {
        (c + 32) as u8
    } else {
        c
    }
}

/// Whether two byte strings are equal up to ASCII case.
pub open spec fn eq_ignore_case(a: Seq<u8>, b: Seq<u8>) -> bool {
    a.len() == b.len() && forall|i: int| 0 <= i < a.len() ==> lower(#[trigger] a[i]) == lower(b[i])
}

/// Compares two byte strings up to ASCII case.
pub fn eq_ignore_ascii_case(a: &[u8], b: &[u8]) -> (r: bool)
    ensures
        r == eq_ignore_case(a@, b@),
{
    if a.len() != b.len() {
        return false;
    }
    let mut i: usize = 0;
    while i < a.len()
        invariant
            i <= a@.len() == b@.len(),
            forall|k: int| 0 <= k < i ==> lower(#[trigger] a@[k]) == lower(b@[k]),
        decreases a@.len() - i,
    {
        let x = a[i];
        let y = b[i];
        let lx = if 65 <= x && x <= 90 { x + 32 } else { x };
        let ly = if 65 <= y && y <= 90 { y + 32 } else { y };
        if lx != ly {
            return false;
        }
        i = i + 1;
    }
    true
}

/// Compares two byte strings exactly.
pub fn bytes_eq(a: &[u8], b: &[u8]) -> (r: bool)
    ensures
        r == (a@ == b@),
{
    if a.len() != b.len() {
        return false;
    }
    let mut i: usize = 0;
    while i < a.len()
        invariant
            i <= a@.len() == b@.len(),
            forall|k: int| 0 <= k < i ==> a@[k] == b@[k],
        decreases a@.len() - i,
    {
        if a[i] != b[i] {
            return false;
        }
        i = i + 1;
    }
    assert(a@ =~= b@);
    true
}

/// The byte strings that a list of byte vectors holds.
pub open spec fn views(v: Seq<Vec<u8>>) -> Seq<Seq<u8>> {
    Seq::new(v.len(), |i: int| v[i]@)
}

/// Whether `c` occurs in `s`.
pub open spec fn has_byte(s: Seq<u8>, c: u8) -> bool {
    exists|i: int| 0 <= i < s.len() && s[i] == c
}

/// The fields of `s` between occurrences of `sep`, in order. There is always at
/// least one field.
pub open spec fn split(s: Seq<u8>, sep: u8) -> Seq<Seq<u8>>
    decreases s.len(),
{
    if s.len() == 0 {
        seq![Seq::<u8>::empty()]
    } else {
        let r = split(s.drop_last(), sep);
        if s.last() == sep {
            r.push(Seq::<u8>::empty())
        } else {
            r.update(r.len() - 1, r.last().push(s.last()))
        }
    }
}

/// `split` never yields an empty list.
pub proof fn lemma_split_len(s: Seq<u8>, sep: u8)
    ensures
        split(s, sep).len() >= 1,
    decreases s.len(),
{
    if s.len() > 0 {
        lemma_split_len(s.drop_last(), sep);
    }
}

/// Splits `s` at every occurrence of `sep`.
pub fn split_bytes(s: &[u8], sep: u8) -> (r: Vec<Vec<u8>>)
    ensures
        views(r@) == split(s@, sep),
{
    let mut fields: Vec<Vec<u8>> = Vec::new();
    let mut start: usize = 0;
    let mut i: usize = 0;
    assert(s@.subrange(0, 0) == Seq::<u8>::empty());
    assert(views(fields@).push(s@.subrange(0, 0)) == split(s@.subrange(0, 0), sep));
    while i < s.len()
        invariant
            start <= i <= s@.len(),
            views(fields@).push(s@.subrange(start as int, i as int)) == split(
                s@.subrange(0, i as int),
                sep,
            ),
        decreases s@.len() - i,
    {
        let ghost pre = s@.subrange(0, i as int);
        let ghost next = s@.subrange(0, i + 1);
        assert(next.drop_last() == pre);
        assert(next.last() == s@[i as int]);
        proof {
            lemma_split_len(pre, sep);
        }
        if s[i] == sep {
            let field = copy_range(s, start, i);
            let ghost before = views(fields@);
            fields.push(field);
            assert(views(fields@) =~= before.push(s@.subrange(start as int, i as int)));
            start = i + 1;
            assert(s@.subrange(start as int, i + 1) == Seq::<u8>::empty());
        } else {
            assert(s@.subrange(start as int, i + 1) == s@.subrange(start as int, i as int).push(
                s@[i as int],
            ));
        }
        i = i + 1;
    }
    let last = copy_range(s, start, s.len());
    let ghost before = views(fields@);
    fields.push(last);
    assert(views(fields@) =~= before.push(s@.subrange(start as int, s@.len() as int)));
    assert(s@.subrange(0, s@.len() as int) == s@);
    fields
}

/// Joins `fields` with `sep` between them.
pub open spec fn join(fields: Seq<Seq<u8>>, sep: u8) -> Seq<u8>
    decreases fields.len(),
{
    if fields.len() == 0 {
        seq![]
    } else if fields.len() == 1 {
        fields[0]
    } else {
        join(fields.drop_last(), sep) + seq![sep] + fields.last()
    }
}

/// A field free of the separator splits into itself alone.
proof fn lemma_split_plain(f: Seq<u8>, sep: u8)
    requires
        !has_byte(f, sep),
    ensures
        split(f, sep) == seq![f],
    decreases f.len(),
{
    if f.len() > 0 {
        assert(!has_byte(f.drop_last(), sep)) by {
            if has_byte(f.drop_last(), sep) {
                let k = choose|k: int| 0 <= k < f.drop_last().len() && f.drop_last()[k] == sep;
                assert(f[k] == sep);
            }
        }
        lemma_split_plain(f.drop_last(), sep);
        assert(f.last() != sep) by {
            assert(f[f.len() - 1] == f.last());
        }
        assert(f.drop_last().push(f.last()) == f);
    } else {
        assert(f == Seq::<u8>::empty());
    }
}

/// A separator followed by a field free of it adds that field.
proof fn lemma_split_append(a: Seq<u8>, x: Seq<u8>, sep: u8)
    requires
        !has_byte(x, sep),
    ensures
        split(a + seq![sep] + x, sep) == split(a, sep).push(x),
    decreases x.len(),
{
    if x.len() == 0 {
        assert((a + seq![sep] + x).drop_last() == a);
        assert(x == Seq::<u8>::empty());
    } else {
        let y = x.drop_last();
        assert(!has_byte(y, sep)) by {
            if has_byte(y, sep) {
                let k = choose|k: int| 0 <= k < y.len() && y[k] == sep;
                assert(x[k] == sep);
            }
        }
        lemma_split_append(a, y, sep);
        let w = a + seq![sep] + x;
        assert(w.drop_last() == a + seq![sep] + y);
        assert(w.last() == x.last());
        assert(x.last() != sep) by {
            assert(x[x.len() - 1] == x.last());
        }
        assert(y.push(x.last()) == x);
        assert(split(a, sep).push(y).update(split(a, sep).len() as int, y.push(x.last())) == split(
            a,
            sep,
        ).push(x));
    }
}

/// Splitting what was joined from fields free of the separator gives the fields back.
pub proof fn lemma_split_join(fields: Seq<Seq<u8>>, sep: u8)
    requires
        fields.len() >= 1,
        forall|i: int| 0 <= i < fields.len() ==> !has_byte(#[trigger] fields[i], sep),
    ensures
        split(join(fields, sep), sep) == fields,
    decreases fields.len(),
{
    if fields.len() == 1 {
        lemma_split_plain(fields[0], sep);
        assert(seq![fields[0]] == fields);
    } else {
        let init = fields.drop_last();
        assert forall|i: int| 0 <= i < init.len() implies !has_byte(#[trigger] init[i], sep) by {
            assert(init[i] == fields[i]);
        }
        lemma_split_join(init, sep);
        assert(!has_byte(fields[fields.len() - 1], sep));
        lemma_split_append(join(init, sep), fields.last(), sep);
        assert(init.push(fields.last()) == fields);
    }
}

/// Joining one more field adds the separator and that field.
proof fn lemma_join_push(fields: Seq<Seq<u8>>, x: Seq<u8>, sep: u8)
    requires
        fields.len() >= 1,
    ensures
        join(fields.push(x), sep) == join(fields, sep) + seq![sep] + x,
{
    assert(fields.push(x).drop_last() == fields);
}

/// Writes `fields` joined by `sep`.
pub fn write_joined(out: &mut Vec<u8>, fields: &Vec<Vec<u8>>, sep: u8)
    ensures
        final(out)@ == old(out)@ + join(views(fields@), sep),
{
    let ghost all = views(fields@);
    if fields.len() == 0 {
        assert(old(out)@ + join(all, sep) == old(out)@);
        return;
    }
    push_all(out, fields[0].as_slice());
    assert(all.subrange(0, 1) == seq![all[0]]);
    let mut i: usize = 1;
    while i < fields.len()
        invariant
            1 <= i <= fields@.len(),
            all == views(fields@),
            out@ == old(out)@ + join(all.subrange(0, i as int), sep),
        decreases fields@.len() - i,
    {
        out.push(sep);
        push_all(out, fields[i].as_slice());
        proof {
            lemma_join_push(all.subrange(0, i as int), all[i as int], sep);
            assert(all.subrange(0, i as int).push(all[i as int]) == all.subrange(0, i + 1));
        }
        i = i + 1;
    }
    assert(all.subrange(0, all.len() as int) == all);
}

/// Whether `c` is ASCII white space.
pub open spec fn is_space(c: u8) -> bool {
    c == 32 || c == 9 || c == 10 || c == 13 || c == 12
}

/// `s` without its leading white space.
pub open spec fn trim_start(s: Seq<u8>) -> Seq<u8>
    decreases s.len(),
{
    if s.len() > 0 && is_space(s[0]) {
        trim_start(s.drop_first())
    } else {
        s
    }
}

/// `s` without its trailing white space.
pub open spec fn trim_end(s: Seq<u8>) -> Seq<u8>
    decreases s.len(),
{
    if s.len() > 0 && is_space(s.last()) {
        trim_end(s.drop_last())
    } else {
        s
    }
}

/// `s` without leading and trailing white space.
pub open spec fn trim(s: Seq<u8>) -> Seq<u8> {
    trim_end(trim_start(s))
}

/// Removes leading and trailing ASCII white space.
pub fn trim_bytes(s: &[u8]) -> (r: Vec<u8>)
    ensures
        r@ == trim(s@),
{
    let mut start: usize = 0;
    assert(s@.subrange(0, s@.len() as int) == s@);
    while start < s.len() && (s[start] == 32 || s[start] == 9 || s[start] == 10 || s[start] == 13
        || s[start] == 12)
        invariant
            start <= s@.len(),
            trim_start(s@) == trim_start(s@.subrange(start as int, s@.len() as int)),
        decreases s@.len() - start,
    {
        assert(s@.subrange(start as int, s@.len() as int).drop_first() == s@.subrange(
            start + 1,
            s@.len() as int,
        ));
        start = start + 1;
    }
    let ghost head = s@.subrange(start as int, s@.len() as int);
    assert(trim_start(head) == head);
    let mut end: usize = s.len();
    assert(s@.subrange(start as int, s@.len() as int) == head);
    while end > start && (s[end - 1] == 32 || s[end - 1] == 9 || s[end - 1] == 10 || s[end - 1]
        == 13 || s[end - 1] == 12)
        invariant
            start <= end <= s@.len(),
            head == s@.subrange(start as int, s@.len() as int),
            trim_start(s@) == head,
            trim_end(head) == trim_end(s@.subrange(start as int, end as int)),
        decreases end - start,
    {
        assert(s@.subrange(start as int, end as int).drop_last() == s@.subrange(
            start as int,
            end - 1,
        ));
        end = end - 1;
    }
    copy_range(s, start, end)
}

/// Whether `s` starts with `p`.
pub open spec fn starts_with(s: Seq<u8>, p: Seq<u8>) -> bool {
    p.len() <= s.len() && s.subrange(0, p.len() as int) == p
}

/// Whether `s` starts with `p`.
pub fn starts_with_bytes(s: &[u8], p: &[u8]) -> (r: bool)
    ensures
        r == starts_with(s@, p@),
{
    if p.len() > s.len() {
        return false;
    }
    let mut i: usize = 0;
    while i < p.len()
        invariant
            p@.len() <= s@.len(),
            i <= p@.len(),
            forall|k: int| 0 <= k < i ==> s@[k] == p@[k],
        decreases p@.len() - i,
    {
        if s[i] != p[i] {
            assert(s@.subrange(0, p@.len() as int)[i as int] != p@[i as int]);
            return false;
        }
        i = i + 1;
    }
    assert(s@.subrange(0, p@.len() as int) =~= p@);
    true
}

/// The position of the last `c` in `s`, if any.
pub open spec fn last_index(s: Seq<u8>, c: u8) -> Option<int>
    decreases s.len(),
{
    if s.len() == 0 {
        None
    } else if s.last() == c {
        Some(s.len() - 1)
    } else {
        last_index(s.drop_last(), c)
    }
}

/// Finds the last `c` in `s`.
pub fn rfind_byte(s: &[u8], c: u8) -> (r: Option<usize>)
    ensures
        match r {
            Some(i) => last_index(s@, c) == Some(i as int),
            None => last_index(s@, c) is None,
        },
{
    let mut n: usize = s.len();
    assert(s@.subrange(0, s@.len() as int) == s@);
    while n > 0
        invariant
            n <= s@.len(),
            last_index(s@, c) == last_index(s@.subrange(0, n as int), c),
        decreases n,
    {
        assert(s@.subrange(0, n as int).last() == s@[n - 1]);
        assert(s@.subrange(0, n as int).drop_last() == s@.subrange(0, n - 1));
        if s[n - 1] == c {
            return Some(n - 1);
        }
        n = n - 1;
    }
    None
}

/// The position of the first `c` in `s`, if any.
pub open spec fn first_index(s: Seq<u8>, c: u8) -> Option<int>
    decreases s.len(),
{
    if s.len() == 0 {
        None
    } else if s[0] == c {
        Some(0)
    } else {
        match first_index(s.drop_first(), c) {
            Some(i) => Some(i + 1),
            None => None,
        }
    }
}

/// Finds the first `c` in `s`.
pub fn find_byte(s: &[u8], c: u8) -> (r: Option<usize>)
    ensures
        match r {
            Some(i) => first_index(s@, c) == Some(i as int),
            None => first_index(s@, c) is None,
        },
{
    let mut i: usize = 0;
    assert(s@.subrange(0, s@.len() as int) == s@);
    while i < s.len()
        invariant
            i <= s@.len(),
            first_index(s@, c) == match first_index(s@.subrange(i as int, s@.len() as int), c) {
                Some(j) => Some(j + i),
                None => None::<int>,
            },
        decreases s@.len() - i,
    {
        assert(s@.subrange(i as int, s@.len() as int)[0] == s@[i as int]);
        assert(s@.subrange(i as int, s@.len() as int).drop_first() == s@.subrange(
            i + 1,
            s@.len() as int,
        ));
        if s[i] == c {
            return Some(i);
        }
        i = i + 1;
    }
    assert(s@.subrange(i as int, s@.len() as int).len() == 0);
    None
}

/// No field that `split` yields holds the separator.
pub proof fn lemma_split_fields(s: Seq<u8>, sep: u8)
    ensures
        forall|i: int| 0 <= i < split(s, sep).len() ==> !has_byte(#[trigger] split(s, sep)[i], sep),
    decreases s.len(),
{
    if s.len() > 0 {
        lemma_split_fields(s.drop_last(), sep);
        lemma_split_len(s.drop_last(), sep);
        let r = split(s.drop_last(), sep);
        if s.last() != sep {
            let l = r.last().push(s.last());
            assert(!has_byte(r[r.len() - 1], sep));
            assert(!has_byte(l, sep)) by {
                if has_byte(l, sep) {
                    let k = choose|k: int| 0 <= k < l.len() && l[k] == sep;
                    if k < l.len() - 1 {
                        assert(r.last()[k] == sep);
                    }
                }
            }
            assert forall|i: int| 0 <= i < split(s, sep).len() implies !has_byte(
                #[trigger] split(s, sep)[i],
                sep,
            ) by {
                if i < r.len() - 1 {
                    assert(split(s, sep)[i] == r[i]);
                }
            }
        } else {
            assert forall|i: int| 0 <= i < split(s, sep).len() implies !has_byte(
                #[trigger] split(s, sep)[i],
                sep,
            ) by {
                if i < r.len() {
                    assert(split(s, sep)[i] == r[i]);
                } else {
                    assert(split(s, sep)[i] == Seq::<u8>::empty());
                }
            }
        }
    }
}

/// A byte that is not the separator and occurs in no field does not occur in the
/// joined text.
pub proof fn lemma_join_lacks(fields: Seq<Seq<u8>>, sep: u8, c: u8)
    requires
        c != sep,
        forall|i: int| 0 <= i < fields.len() ==> !has_byte(#[trigger] fields[i], c),
    ensures
        !has_byte(join(fields, sep), c),
    decreases fields.len(),
{
    if fields.len() == 1 {
        assert(!has_byte(fields[0], c));
    } else if fields.len() > 1 {
        let init = fields.drop_last();
        assert forall|i: int| 0 <= i < init.len() implies !has_byte(#[trigger] init[i], c) by {
            assert(init[i] == fields[i]);
        }
        lemma_join_lacks(init, sep, c);
        let a = join(init, sep);
        let b = fields.last();
        assert(!has_byte(fields[fields.len() - 1], c));
        let j = a + seq![sep] + b;
        if has_byte(j, c) {
            let k = choose|k: int| 0 <= k < j.len() && j[k] == c;
            if k < a.len() {
                assert(a[k] == c);
            } else if k > a.len() {
                assert(b[k - a.len() - 1] == c);
            }
        }
    }
}

/// Joining two fields puts the separator between them.
pub proof fn lemma_join_two(x: Seq<u8>, y: Seq<u8>, sep: u8)
    ensures
        join(seq![x, y], sep) == x + seq![sep] + y,
{
    let f = seq![x, y];
    assert(f.drop_last() == seq![x]);
    assert(join(seq![x], sep) == x);
    assert(f.last() == y);
    assert(f.len() == 2);
}

/// Joining two or more fields yields text that holds the separator.
pub proof fn lemma_join_has_sep(fields: Seq<Seq<u8>>, sep: u8)
    requires
        fields.len() >= 2,
    ensures
        has_byte(join(fields, sep), sep),
{
    let a = join(fields.drop_last(), sep);
    let j = a + seq![sep] + fields.last();
    assert(j[a.len() as int] == sep);
}

/// A run of digits holds none of the other bytes.
pub proof fn lemma_digits_lack(s: Seq<u8>, c: u8)
    requires
        all_digits(s),
        !is_digit(c),
    ensures
        !has_byte(s, c),
{
    if has_byte(s, c) {
        let k = choose|k: int| 0 <= k < s.len() && s[k] == c;
        assert(is_digit(s[k]));
    }
}

} // verus!
