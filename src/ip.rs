//! IP addresses as octets, their text forms, and prefix comparison.
use vstd::prelude::*;

use crate::text::{
    all_digits, decimal, decimal_value, has_byte, join, lemma_decimal, lemma_digits_lack,
    lemma_join_has_sep, lemma_join_lacks, lemma_split_join, lemma_split_len, parse_decimal, split,
    split_bytes, views, write_decimal,
};

verus! {

/// An IP address.
#[derive(Debug, Clone, Copy)]
pub enum IpAddr {
    V4([u8; 4]),
    V6([u8; 16]),
}

/// The mathematical value of an IP address: its family and its octets.
pub enum IpView {
    V4(Seq<u8>),
    V6(Seq<u8>),
}

impl View for IpAddr {
    type V = IpView;

    open spec fn view(&self) -> IpView {
        match self {
            IpAddr::V4(a) => IpView::V4(a@),
            IpAddr::V6(a) => IpView::V6(a@),
        }
    }
}

/// Whether a field is a decimal octet: 1 or more digits spelling at most 255.
pub open spec fn is_octet_text(f: Seq<u8>) -> bool {
    1 <= f.len() && all_digits(f) && decimal_value(f) <= 255
}

/// The IPv4 address that dotted-decimal text spells, if it spells one.
pub open spec fn parse_ipv4_text(s: Seq<u8>) -> Option<Seq<u8>> {
    let f = split(s, 46);
    if f.len() == 4 && forall|i: int| 0 <= i < 4 ==> is_octet_text(#[trigger] f[i]) {
        Some(
            seq![
                decimal_value(f[0]) as u8,
                decimal_value(f[1]) as u8,
                decimal_value(f[2]) as u8,
                decimal_value(f[3]) as u8,
            ],
        )
    } else {
        None
    }
}

/// The dotted-decimal text of an IPv4 address.
pub open spec fn ipv4_text(a: Seq<u8>) -> Seq<u8> {
    join(seq![decimal(a[0] as nat), decimal(a[1] as nat), decimal(a[2] as nat), decimal(a[3] as nat)], 46)
}

/// Whether `c` is an ASCII hexadecimal digit.
pub open spec fn is_hex(c: u8) -> bool {
    (48 <= c <= 57) || (97 <= c <= 102) || (65 <= c <= 70)
}

/// The value of one hexadecimal digit.
pub open spec fn hex_digit(c: u8) -> nat {
    if 48 <= c <= 57 {
        (c - 48) as nat
    } else if 97 <= c <= 102 {
        (c - 87) as nat
    } else {
        (c - 55) as nat
    }
}

/// The number that a string of hexadecimal digits spells.
pub open spec fn hex_value(s: Seq<u8>) -> nat
    decreases s.len(),
{
    if s.len() == 0 {
        0
    } else {
        hex_value(s.drop_last()) * 16 + hex_digit(s.last())
    }
}

/// The lower-case hexadecimal spelling of one digit value.
pub open spec fn hex_char(d: nat) -> u8 {
    if d < 10 {
        (48 + d) as u8
    } else {
        (87 + d) as u8
    }
}

/// The shortest lower-case hexadecimal spelling of `n`.
pub open spec fn hex(n: nat) -> Seq<u8>
    decreases n,
{
    if n < 16 {
        seq![hex_char(n)]
    } else {
        hex(n / 16).push(hex_char(n % 16))
    }
}

/// Whether a field is an IPv6 group: 1 to 4 hexadecimal digits.
pub open spec fn is_group_text(f: Seq<u8>) -> bool {
    1 <= f.len() <= 4 && forall|i: int| 0 <= i < f.len() ==> is_hex(#[trigger] f[i])
}

/// The two octets of a 16-bit group.
pub open spec fn group_octets(v: nat) -> Seq<u8> {
    seq![(v / 256) as u8, (v % 256) as u8]
}

/// The octets that eight groups stand for.
pub open spec fn groups_octets(f: Seq<Seq<u8>>) -> Seq<u8> {
    Seq::new(16, |k: int| if k % 2 == 0 { (hex_value(f[k / 2]) / 256) as u8 } else { (hex_value(f[k / 2]) % 256) as u8 })
}

/// Whether every field is an IPv6 group.
pub open spec fn all_groups(f: Seq<Seq<u8>>) -> bool {
    forall|i: int| 0 <= i < f.len() ==> is_group_text(#[trigger] f[i])
}

/// The colon-separated groups of a part of an IPv6 text; none when it is empty.
pub open spec fn groups_of(s: Seq<u8>) -> Seq<Seq<u8>> {
    if s.len() == 0 {
        seq![]
    } else {
        split(s, 58)
    }
}

/// The position of the first `::` in `s`, if any.
pub open spec fn first_double(s: Seq<u8>) -> Option<int>
    decreases s.len(),
{
    if s.len() < 2 {
        None
    } else if s[0] == 58 && s[1] == 58 {
        Some(0)
    } else {
        match first_double(s.drop_first()) {
            Some(i) => Some(i + 1),
            None => None,
        }
    }
}

/// `n` groups of zero.
pub open spec fn zero_groups(n: nat) -> Seq<Seq<u8>> {
    Seq::new(n, |i: int| seq![48u8])
}

/// The eight groups an IPv6 text stands for: eight colon-separated groups, or
/// fewer around one `::`, which stands for as many zero groups as are missing.
pub open spec fn expanded_groups(s: Seq<u8>) -> Option<Seq<Seq<u8>>> {
    match first_double(s) {
        None => if split(s, 58).len() == 8 {
            Some(split(s, 58))
        } else {
            None
        },
        Some(i) => {
            let h = groups_of(s.subrange(0, i));
            let t = groups_of(s.subrange(i + 2, s.len() as int));
            if h.len() + t.len() <= 7 {
                Some(h + zero_groups((8 - h.len() - t.len()) as nat) + t)
            } else {
                None
            }
        },
    }
}

/// The IPv6 address that a text spells: eight groups of one to four hexadecimal
/// digits, where one `::` may stand for a run of zero groups.
pub open spec fn parse_ipv6_text(s: Seq<u8>) -> Option<Seq<u8>> {
    match expanded_groups(s) {
        Some(f) => if all_groups(f) {
            Some(groups_octets(f))
        } else {
            None
        },
        None => None,
    }
}

/// The eight groups of an IPv6 address, as text.
pub open spec fn ipv6_groups(a: Seq<u8>) -> Seq<Seq<u8>> {
    Seq::new(8, |i: int| hex(a[2 * i] as nat * 256 + a[2 * i + 1] as nat))
}

/// The text of an IPv6 address: eight lower-case hexadecimal groups.
pub open spec fn ipv6_text(a: Seq<u8>) -> Seq<u8> {
    join(ipv6_groups(a), 58)
}

/// The text of an IP address.
pub open spec fn ip_text(ip: IpView) -> Seq<u8> {
    match ip {
        IpView::V4(a) => ipv4_text(a),
        IpView::V6(a) => ipv6_text(a),
    }
}

/// The address that text spells: dotted decimal for IPv4, eight groups for IPv6.
pub open spec fn parse_ip_text(s: Seq<u8>) -> Option<IpView> {
    if has_byte(s, 58) {
        match parse_ipv6_text(s) {
            Some(a) => Some(IpView::V6(a)),
            None => None,
        }
    } else {
        match parse_ipv4_text(s) {
            Some(a) => Some(IpView::V4(a)),
            None => None,
        }
    }
}

/// Whether an address has the octet count of its family.
pub open spec fn valid_ip(ip: IpView) -> bool {
    match ip {
        IpView::V4(a) => a.len() == 4,
        IpView::V6(a) => a.len() == 16,
    }
}

/// Reads up to four hexadecimal digits.
fn parse_group(f: &[u8]) -> (r: Option<u16>)
    ensures
        r is Some <==> is_group_text(f@),
        r matches Some(v) ==> v == hex_value(f@),
{
    if f.len() == 0 || f.len() > 4 {
        return None;
    }
    let mut acc: u32 = 0;
    let mut i: usize = 0;
    while i < f.len()
        invariant
            i <= f@.len() <= 4,
            forall|k: int| 0 <= k < i ==> is_hex(#[trigger] f@[k]),
            acc == hex_value(f@.subrange(0, i as int)),
            acc < pow16(i as nat),
        decreases f@.len() - i,
    {
        let c = f[i];
        let d: u32 = if 48 <= c && c <= 57 {
            (c - 48) as u32
        } else if 97 <= c && c <= 102 {
            (c - 87) as u32
        } else if 65 <= c && c <= 70 {
            (c - 55) as u32
        } else {
            return None;
        };
        proof {
            assert(f@.subrange(0, i + 1).drop_last() == f@.subrange(0, i as int));
            lemma_pow16_bound(i as nat);
        }
        acc = acc * 16 + d;
        i = i + 1;
    }
    proof {
        assert(f@.subrange(0, f@.len() as int) == f@);
        lemma_pow16_bound(f@.len());
    }
    Some(acc as u16)
}

/// Sixteen to the power `n`.
pub open spec fn pow16(n: nat) -> nat
    decreases n,
{
    if n == 0 {
        1
    } else {
        16 * pow16((n - 1) as nat)
    }
}

proof fn lemma_pow16_bound(n: nat)
    requires
        n <= 4,
    ensures
        pow16(n) <= 65536,
        n < 4 ==> pow16(n) * 16 <= 65536,
{
    reveal_with_fuel(pow16, 5);
}

/// Reads an IP address from its text. IPv4 is dotted decimal; IPv6 is eight
/// colon-separated groups of hexadecimal digits.
pub fn parse_ip(s: &[u8]) -> (r: Option<IpAddr>)
    ensures
        match (r, parse_ip_text(s@)) {
            (Some(ip), Some(v)) => ip@ == v,
            (None, None) => true,
            _ => false,
        },
{
    let fields = split_bytes(s, 58);
    if fields.len() > 1 {
        proof {
            assert(has_byte(s@, 58)) by {
                lemma_split_single(s@, 58);
            }
        }
        let groups = match expand(s) {
            Some(g) => g,
            None => return None,
        };
        match octets_of_groups(&groups) {
            Some(out) => Some(IpAddr::V6(out)),
            None => None,
        }
    } else {
        proof {
            assert(!has_byte(s@, 58)) by {
                lemma_split_single(s@, 58);
            }
        }
        let parts = split_bytes(s, 46);
        if parts.len() != 4 {
            return None;
        }
        let a = match parse_decimal(parts[0].as_slice(), 255) {
            Some(v) => v,
            None => return None,
        };
        let b = match parse_decimal(parts[1].as_slice(), 255) {
            Some(v) => v,
            None => return None,
        };
        let c = match parse_decimal(parts[2].as_slice(), 255) {
            Some(v) => v,
            None => return None,
        };
        let d = match parse_decimal(parts[3].as_slice(), 255) {
            Some(v) => v,
            None => return None,
        };
        let out = [a as u8, b as u8, c as u8, d as u8];
        proof {
            let f = split(s@, 46);
            assert(f[0] == parts@[0]@);
            assert(f[1] == parts@[1]@);
            assert(f[2] == parts@[2]@);
            assert(f[3] == parts@[3]@);
            assert(forall|i: int| 0 <= i < 4 ==> is_octet_text(#[trigger] f[i]));
            assert(out@ =~= parse_ipv4_text(s@)->Some_0);
        }
        Some(IpAddr::V4(out))
    }
}

/// Finds the first `::`.
fn find_double(s: &[u8]) -> (r: Option<usize>)
    ensures
        match r {
            Some(i) => first_double(s@) == Some(i as int),
            None => first_double(s@) is None,
        },
{
    let n = s.len();
    if n < 2 {
        return None;
    }
    let mut i: usize = 0;
    assert(s@.subrange(0, s@.len() as int) == s@);
    while i < n - 1
        invariant
            n == s@.len(),
            n >= 2,
            i <= s@.len(),
            first_double(s@) == match first_double(s@.subrange(i as int, s@.len() as int)) {
                Some(j) => Some(j + i),
                None => None::<int>,
            },
        decreases s@.len() - i,
    {
        let ghost rest = s@.subrange(i as int, s@.len() as int);
        assert(rest[0] == s@[i as int] && rest[1] == s@[i + 1]);
        assert(rest.drop_first() == s@.subrange(i + 1, s@.len() as int));
        if s[i] == 58 && s[i + 1] == 58 {
            return Some(i);
        }
        i = i + 1;
    }
    assert(s@.subrange(i as int, s@.len() as int).len() < 2);
    None
}

/// The groups of a part of an IPv6 text.
fn groups_in(s: &[u8]) -> (r: Vec<Vec<u8>>)
    ensures
        views(r@) == groups_of(s@),
{
    if s.len() == 0 {
        let r: Vec<Vec<u8>> = Vec::new();
        assert(views(r@) =~= Seq::<Seq<u8>>::empty());
        r
    } else {
        split_bytes(s, 58)
    }
}

/// The eight groups an IPv6 text stands for.
fn expand(s: &[u8]) -> (r: Option<Vec<Vec<u8>>>)
    ensures
        match (r, expanded_groups(s@)) {
            (Some(g), Some(f)) => views(g@) == f,
            (None, None) => true,
            _ => false,
        },
{
    let _n = s.len();
    match find_double(s) {
        None => {
            let f = split_bytes(s, 58);
            if f.len() == 8 {
                Some(f)
            } else {
                None
            }
        },
        Some(i) => {
            proof {
                lemma_first_double_range(s@);
            }
            let head = groups_in(vstd::slice::slice_subrange(s, 0, i));
            let tail = groups_in(vstd::slice::slice_subrange(s, i + 2, s.len()));
            if head.len() > 7 || tail.len() > 7 - head.len() {
                return None;
            }
            let missing = 8 - head.len() - tail.len();
            let mut out = head;
            let ghost h = views(out@);
            let mut k: usize = 0;
            while k < missing
                invariant
                    k <= missing,
                    views(out@) == h + zero_groups(k as nat),
                decreases missing - k,
            {
                let ghost before = views(out@);
                let zero: Vec<u8> = vec![48];
                assert(zero@ =~= seq![48u8]);
                out.push(zero);
                assert(views(out@) =~= before.push(seq![48u8]));
                assert(h + zero_groups((k + 1) as nat) =~= (h + zero_groups(k as nat)).push(seq![48u8]));
                k = k + 1;
            }
            let mut j: usize = 0;
            let ghost mid = views(out@);
            while j < tail.len()
                invariant
                    j <= tail@.len(),
                    views(out@) == mid + views(tail@).subrange(0, j as int),
                decreases tail@.len() - j,
            {
                let ghost before = views(out@);
                let g = crate::codec::copy_range(tail[j].as_slice(), 0, tail[j].len());
                assert(tail@[j as int]@.subrange(0, tail@[j as int]@.len() as int) == tail@[j as int]@);
                out.push(g);
                assert(views(out@) =~= before.push(views(tail@)[j as int]));
                assert(views(tail@).subrange(0, j + 1) =~= views(tail@).subrange(0, j as int).push(
                    views(tail@)[j as int],
                ));
                j = j + 1;
            }
            assert(views(tail@).subrange(0, tail@.len() as int) == views(tail@));
            Some(out)
        },
    }
}

/// Text joined from non-empty fields free of the separator never holds the
/// separator twice in a row.
proof fn lemma_join_no_double(fields: Seq<Seq<u8>>, sep: u8)
    requires
        fields.len() >= 1,
        forall|i: int| 0 <= i < fields.len() ==> (#[trigger] fields[i]).len() >= 1 && !has_byte(
            fields[i],
            sep,
        ),
    ensures
        forall|k: int|
            0 <= k && k + 1 < join(fields, sep).len() ==> !(#[trigger] join(fields, sep)[k] == sep
                && join(fields, sep)[k + 1] == sep),
        join(fields, sep).len() >= 1,
        join(fields, sep).last() == fields.last().last(),
    decreases fields.len(),
{
    let j = join(fields, sep);
    if fields.len() == 1 {
        assert forall|k: int| 0 <= k && k + 1 < j.len() implies !(#[trigger] j[k] == sep && j[k + 1]
            == sep) by {
            if j[k] == sep {
                assert(has_byte(fields[0], sep));
            }
        }
    } else {
        let init = fields.drop_last();
        assert forall|i: int| 0 <= i < init.len() implies (#[trigger] init[i]).len() >= 1 && !has_byte(
            init[i],
            sep,
        ) by {
            assert(init[i] == fields[i]);
        }
        lemma_join_no_double(init, sep);
        let a = join(init, sep);
        let l = fields.last();
        assert(l == fields[fields.len() - 1]);
        assert(l.len() >= 1 && !has_byte(l, sep));
        assert(j == a + seq![sep] + l);
        assert(a.last() == init.last().last());
        assert(init.last() == fields[fields.len() - 2]);
        assert(!has_byte(init.last(), sep));
        assert(init.last().last() != sep) by {
            assert(init.last()[init.last().len() - 1] == init.last().last());
        }
        assert forall|k: int| 0 <= k && k + 1 < j.len() implies !(#[trigger] j[k] == sep && j[k + 1]
            == sep) by {
            let n = a.len() as int;
            if k + 1 < n {
                assert(j[k] == a[k] && j[k + 1] == a[k + 1]);
            } else if k + 1 == n {
                assert(j[k] == a[n - 1]);
            } else if k == n {
                assert(j[k + 1] == l[0]);
                if l[0] == sep {
                    assert(has_byte(l, sep));
                }
            } else {
                assert(j[k] == l[k - n - 1]);
                if l[k - n - 1] == sep {
                    assert(has_byte(l, sep));
                }
            }
        }
        assert(j.last() == l.last());
    }
}

/// The position of the first `::` lies within the text and holds two colons.
pub proof fn lemma_first_double_range(s: Seq<u8>)
    ensures
        first_double(s) matches Some(i) ==> 0 <= i && i + 1 < s.len() && s[i] == 58 && s[i + 1]
            == 58,
    decreases s.len(),
{
    if s.len() >= 2 {
        lemma_first_double_range(s.drop_first());
    }
}

/// The octets that eight group texts stand for, if every one is a group.
fn octets_of_groups(groups: &Vec<Vec<u8>>) -> (r: Option<[u8; 16]>)
    requires
        groups@.len() == 8,
    ensures
        r is Some <==> all_groups(views(groups@)),
        r matches Some(out) ==> out@ == groups_octets(views(groups@)),
{
    let mut out: [u8; 16] = [0u8; 16];
    let mut g: usize = 0;
    while g < 8
        invariant
            0 <= g <= 8,
            groups@.len() == 8,
            forall|i: int| 0 <= i < g ==> is_group_text(#[trigger] views(groups@)[i]),
            forall|k: int| 0 <= k < 2 * g ==> out@[k] == groups_octets(views(groups@))[k],
        decreases 8 - g,
    {
        assert(views(groups@)[g as int] == groups@[g as int]@);
        let v = match parse_group(groups[g].as_slice()) {
            Some(v) => v,
            None => {
                assert(!is_group_text(views(groups@)[g as int]));
                return None;
            },
        };
        out[2 * g] = (v / 256) as u8;
        out[2 * g + 1] = (v % 256) as u8;
        g = g + 1;
    }
    assert(out@ =~= groups_octets(views(groups@)));
    Some(out)
}

/// A string splits into more than one field exactly when it holds the separator.
pub proof fn lemma_split_single(s: Seq<u8>, sep: u8)
    ensures
        split(s, sep).len() > 1 <==> has_byte(s, sep),
    decreases s.len(),
{
    lemma_split_len(s, sep);
    if s.len() > 0 {
        lemma_split_single(s.drop_last(), sep);
        lemma_split_len(s.drop_last(), sep);
        if has_byte(s.drop_last(), sep) {
            let k = choose|k: int| 0 <= k < s.drop_last().len() && s.drop_last()[k] == sep;
            assert(s[k] == sep);
        }
        if has_byte(s, sep) && s.last() != sep {
            let k = choose|k: int| 0 <= k < s.len() && s[k] == sep;
            assert(k < s.len() - 1);
            assert(s.drop_last()[k] == sep);
        }
        if s.last() == sep {
            assert(s[s.len() - 1] == sep);
        }
    }
}

/// Writes the lower-case hexadecimal spelling of `n`.
pub fn write_hex(out: &mut Vec<u8>, n: u64)
    ensures
        final(out)@ == old(out)@ + hex(n as nat),
    decreases n,
{
    let d = (n % 16) as u8;
    let c: u8 = if d < 10 {
        48 + d
    } else {
        87 + d
    };
    assert(c == hex_char((n % 16) as nat));
    if n < 16 {
        out.push(c);
        assert(old(out)@.push(c) == old(out)@ + hex(n as nat));
    } else {
        write_hex(out, n / 16);
        out.push(c);
        assert(old(out)@ + hex((n / 16) as nat) + seq![c] =~= old(out)@ + hex(n as nat));
    }
}

impl IpAddr {
    /// Writes the text of this address: dotted decimal, or eight lower-case
    /// hexadecimal groups separated by colons.
    pub fn write_text(&self, out: &mut Vec<u8>)
        ensures
            final(out)@ == old(out)@ + ip_text(self@),
    {
        match self {
            IpAddr::V4(a) => {
                write_decimal(out, a[0] as u64);
                out.push(46);
                write_decimal(out, a[1] as u64);
                out.push(46);
                write_decimal(out, a[2] as u64);
                out.push(46);
                write_decimal(out, a[3] as u64);
                proof {
                    let f = seq![
                        decimal(a@[0] as nat),
                        decimal(a@[1] as nat),
                        decimal(a@[2] as nat),
                        decimal(a@[3] as nat),
                    ];
                    let d0 = decimal(a@[0] as nat);
                    let d1 = decimal(a@[1] as nat);
                    let d2 = decimal(a@[2] as nat);
                    let d3 = decimal(a@[3] as nat);
                    let f1 = seq![d0];
                    let f2 = seq![d0, d1];
                    let f3 = seq![d0, d1, d2];
                    assert(f.drop_last() == f3);
                    assert(f3.drop_last() == f2);
                    assert(f2.drop_last() == f1);
                    assert(join(f1, 46) == d0);
                    assert(join(f2, 46) == d0 + seq![46u8] + d1);
                    assert(join(f3, 46) == d0 + seq![46u8] + d1 + seq![46u8] + d2);
                    assert(join(f, 46) == d0 + seq![46u8] + d1 + seq![46u8] + d2 + seq![46u8] + d3);
                    assert(final(out)@ =~= old(out)@ + join(f, 46));
                }
            },
            IpAddr::V6(a) => {
                let ghost groups = ipv6_groups(a@);
                let mut g: usize = 0;
                while g < 8
                    invariant
                        g <= 8,
                        groups == ipv6_groups(a@),
                        g == 0 ==> out@ == old(out)@,
                        g > 0 ==> out@ == old(out)@ + join(groups.subrange(0, g as int), 58),
                    decreases 8 - g,
                {
                    if g > 0 {
                        out.push(58);
                    }
                    let v = (a[2 * g] as u64) * 256 + (a[2 * g + 1] as u64);
                    write_hex(out, v);
                    proof {
                        assert(groups[g as int] == hex(v as nat));
                        if g == 0 {
                            assert(groups.subrange(0, 1) == seq![groups[0]]);
                        } else {
                            lemma_join_push_ip(groups.subrange(0, g as int), groups[g as int]);
                            assert(groups.subrange(0, g as int).push(groups[g as int]) == groups.subrange(
                                0,
                                g + 1,
                            ));
                        }
                    }
                    g = g + 1;
                }
                assert(groups.subrange(0, 8) == groups);
            },
        }
    }
}

proof fn lemma_join_push_ip(fields: Seq<Seq<u8>>, x: Seq<u8>)
    requires
        fields.len() >= 1,
    ensures
        join(fields.push(x), 58) == join(fields, 58) + seq![58u8] + x,
{
    assert(fields.push(x).drop_last() == fields);
}

/// A hexadecimal spelling is made of digits, is not empty, and spells its number.
pub proof fn lemma_hex(n: nat)
    ensures
        forall|i: int| 0 <= i < hex(n).len() ==> is_hex(#[trigger] hex(n)[i]),
        1 <= hex(n).len(),
        hex_value(hex(n)) == n,
        n < 16 ==> hex(n).len() == 1,
        n >= 16 ==> hex(n).len() == hex(n / 16).len() + 1,
    decreases n,
{
    let s = hex(n);
    if n >= 16 {
        lemma_hex(n / 16);
        assert(s.drop_last() == hex(n / 16));
        assert(n == (n / 16) * 16 + n % 16);
        assert(hex_digit(hex_char(n % 16)) == n % 16);
        assert(s.last() == hex_char(n % 16));
        assert(hex_value(s) == hex_value(hex(n / 16)) * 16 + n % 16);
        assert(hex_value(hex(n / 16)) * 16 == (n / 16) * 16);
        assert forall|i: int| 0 <= i < s.len() implies is_hex(#[trigger] s[i]) by {
            if i < s.len() - 1 {
                assert(s[i] == hex(n / 16)[i]);
            }
        }
    } else {
        assert(s.drop_last() =~= Seq::<u8>::empty());
        assert(hex_digit(hex_char(n)) == n);
        assert(s.last() == hex_char(n));
        assert(hex_value(s.drop_last()) == 0);
    }
}

/// A group below 2^16 takes at most four hexadecimal digits.
proof fn lemma_hex_short(n: nat)
    requires
        n < 65536,
    ensures
        hex(n).len() <= 4,
{
    lemma_hex(n);
    lemma_hex(n / 16);
    lemma_hex(n / 256);
    lemma_hex(n / 4096);
    assert(n / 16 / 16 == n / 256);
    assert(n / 256 / 16 == n / 4096);
}

/// Hexadecimal digits hold none of the separators.
proof fn lemma_hex_lacks(n: nat, c: u8)
    requires
        !is_hex(c),
    ensures
        !has_byte(hex(n), c),
{
    lemma_hex(n);
    if has_byte(hex(n), c) {
        let k = choose|k: int| 0 <= k < hex(n).len() && hex(n)[k] == c;
        assert(is_hex(hex(n)[k]));
    }
}

proof fn lemma_octet_pair(x: nat, y: nat)
    requires
        x < 256,
        y < 256,
    ensures
        (x * 256 + y) / 256 == x,
        (x * 256 + y) % 256 == y,
{
    assert((x * 256 + y) / 256 == x && (x * 256 + y) % 256 == y) by (nonlinear_arith)
        requires
            x < 256,
            y < 256,
    ;
}

/// The text of an address reads back as that address, and holds neither a comma
/// nor a slash.
pub proof fn lemma_ip_round_trip(ip: IpView)
    requires
        valid_ip(ip),
    ensures
        parse_ip_text(ip_text(ip)) == Some(ip),
        !has_byte(ip_text(ip), 44),
        !has_byte(ip_text(ip), 47),
{
    match ip {
        IpView::V4(a) => {
            let f = seq![decimal(a[0] as nat), decimal(a[1] as nat), decimal(a[2] as nat), decimal(a[3] as nat)];
            lemma_decimal(a[0] as nat);
            lemma_decimal(a[1] as nat);
            lemma_decimal(a[2] as nat);
            lemma_decimal(a[3] as nat);
            assert forall|i: int| 0 <= i < 4 implies all_digits(#[trigger] f[i]) && is_octet_text(f[i])
                && decimal_value(f[i]) == a[i] as nat by {
                if i == 0 {} else if i == 1 {} else if i == 2 {} else {}
            }
            assert forall|i: int| 0 <= i < 4 implies !has_byte(#[trigger] f[i], 46) by {
                lemma_digits_lack(f[i], 46);
            }
            assert forall|i: int| 0 <= i < 4 implies !has_byte(#[trigger] f[i], 58) by {
                lemma_digits_lack(f[i], 58);
            }
            assert forall|i: int| 0 <= i < 4 implies !has_byte(#[trigger] f[i], 44) by {
                lemma_digits_lack(f[i], 44);
            }
            assert forall|i: int| 0 <= i < 4 implies !has_byte(#[trigger] f[i], 47) by {
                lemma_digits_lack(f[i], 47);
            }
            lemma_split_join(f, 46);
            lemma_join_lacks(f, 46, 58);
            lemma_join_lacks(f, 46, 44);
            lemma_join_lacks(f, 46, 47);
            assert(ipv4_text(a) == join(f, 46));
            let v = parse_ipv4_text(ipv4_text(a));
            assert(split(ipv4_text(a), 46) == f);
            assert(v == Some(seq![a[0], a[1], a[2], a[3]]));
            assert(seq![a[0], a[1], a[2], a[3]] =~= a);
        },
        IpView::V6(a) => {
            let g = ipv6_groups(a);
            assert forall|i: int| 0 <= i < 8 implies is_group_text(#[trigger] g[i]) && hex_value(g[i])
                == a[2 * i] as nat * 256 + a[2 * i + 1] as nat && !has_byte(g[i], 58) && !has_byte(
                g[i],
                44,
            ) && !has_byte(g[i], 47) by {
                let n = a[2 * i] as nat * 256 + a[2 * i + 1] as nat;
                lemma_hex(n);
                lemma_hex_short(n);
                lemma_hex_lacks(n, 58);
                lemma_hex_lacks(n, 44);
                lemma_hex_lacks(n, 47);
            }
            lemma_split_join(g, 58);
            lemma_join_has_sep(g, 58);
            assert forall|i: int| 0 <= i < g.len() implies (#[trigger] g[i]).len() >= 1 by {
                lemma_hex(a[2 * i] as nat * 256 + a[2 * i + 1] as nat);
            }
            lemma_join_no_double(g, 58);
            lemma_first_double_range(ipv6_text(a));
            lemma_join_lacks(g, 58, 44);
            lemma_join_lacks(g, 58, 47);
            assert(split(ipv6_text(a), 58) == g);
            assert forall|k: int| 0 <= k < 16 implies #[trigger] groups_octets(g)[k] == a[k] by {
                let i = k / 2;
                lemma_octet_pair(a[2 * i] as nat, a[2 * i + 1] as nat);
                if k % 2 == 0 {
                    assert(2 * i == k);
                } else {
                    assert(2 * i + 1 == k);
                }
            }
            assert(groups_octets(g) =~= a);
        },
    }
}

} // verus!
