//! The host addresses a server may listen on: `localhost`, a dotted IPv4
//! address, or an IPv6 address in any of its text forms.

use vstd::prelude::*;
use crate::text::{decimal, digit_char};

verus! {

/// An ASCII decimal digit.
pub open spec fn is_dec_digit(c: char) -> bool {
    '0' <= c && c <= '9'
}

/// An ASCII hexadecimal digit, in either case.
pub open spec fn is_hex_digit(c: char) -> bool {
    is_dec_digit(c) || ('a' <= c && c <= 'f') || ('A' <= c && c <= 'F')
}

/// The number that the decimal digits `s` spell.
pub open spec fn dec_value(s: Seq<char>) -> int
    decreases s.len(),
{
    if s.len() == 0 {
        0
    } else {
        dec_value(s.drop_last()) * 10 + ((s.last() as u32) - 48)
    }
}

/// One part of a dotted IPv4 address: one to three decimal digits, no
/// leading zero unless the part is `0`, and a value of at most 255.
pub open spec fn is_dec_octet(s: Seq<char>) -> bool {
    &&& 1 <= s.len() <= 3
    &&& forall|i: int| 0 <= i < s.len() ==> is_dec_digit(#[trigger] s[i])
    &&& (s.len() == 1 || s[0] != '0')
    &&& dec_value(s) <= 255
}

/// One group of an IPv6 address: one to four hexadecimal digits.
pub open spec fn is_hex_group(s: Seq<char>) -> bool {
    &&& 1 <= s.len() <= 4
    &&& forall|i: int| 0 <= i < s.len() ==> is_hex_digit(#[trigger] s[i])
}

/// The parts of `s` between the occurrences of `sep`, in order; a text
/// without `sep` is one part, and the empty text is one empty part.
pub open spec fn split(s: Seq<char>, sep: char) -> Seq<Seq<char>>
    decreases s.len(),
{
    if s.len() == 0 {
        seq![Seq::<char>::empty()]
    } else {
        let p = split(s.drop_last(), sep);
        if s.last() == sep {
            p.push(Seq::<char>::empty())
        } else {
            p.update(p.len() - 1, p.last().push(s.last()))
        }
    }
}

/// A dotted IPv4 address: four parts separated by `.`, each a decimal octet.
pub open spec fn is_ipv4(s: Seq<char>) -> bool {
    let p = split(s, '.');
    p.len() == 4 && forall|i: int| 0 <= i < 4 ==> is_dec_octet(#[trigger] p[i])
}

/// Whether every part of `p` is an IPv6 group.
pub open spec fn all_hex_groups(p: Seq<Seq<char>>) -> bool {
    forall|i: int| 0 <= i < p.len() ==> is_hex_group(#[trigger] p[i])
}

/// An IPv6 address written without `::`: eight groups, or six groups
/// followed by a dotted IPv4 address for the last 32 bits.
pub open spec fn is_full_ipv6(s: Seq<char>) -> bool {
    let p = split(s, ':');
    ||| p.len() == 8 && all_hex_groups(p)
    ||| p.len() == 7 && all_hex_groups(p.take(6)) && is_ipv4(p[6])
}

/// The number of 16-bit groups that the text before a `::` gives, or
/// `None` when it is not a list of groups.
pub open spec fn head_weight(l: Seq<char>) -> Option<nat> {
    if l.len() == 0 {
        Some(0)
    } else if all_hex_groups(split(l, ':')) {
        Some(split(l, ':').len())
    } else {
        None
    }
}

/// The number of 16-bit groups that the text after a `::` gives, where the
/// last part may be a dotted IPv4 address worth two groups, or `None` when
/// it is not such a list.
pub open spec fn tail_weight(r: Seq<char>) -> Option<nat> {
    let p = split(r, ':');
    if r.len() == 0 {
        Some(0)
    } else if all_hex_groups(p) {
        Some(p.len())
    } else if all_hex_groups(p.drop_last()) && is_ipv4(p.last()) {
        Some(p.len() + 1)
    } else {
        None
    }
}

/// Whether `s` has `::` at position `i`.
pub open spec fn is_double_colon_at(s: Seq<char>, i: int) -> bool {
    0 <= i && i + 1 < s.len() && s[i] == ':' && s[i + 1] == ':'
}

/// An IPv6 address whose first `::`, at `i`, stands for one or more zero
/// groups: the texts before and after it are lists of groups that together
/// give at most seven groups.
pub open spec fn is_compressed_ipv6_at(s: Seq<char>, i: int) -> bool {
    match (head_weight(s.take(i)), tail_weight(s.skip(i + 2))) {
        (Some(a), Some(b)) => a + b <= 7,
        _ => false,
    }
}

/// An IPv6 address in any of its text forms: full, or with the first `::`
/// abbreviating zero groups (a second `::` leaves an empty group in the
/// text after the first, so no such text is accepted).
pub open spec fn is_ipv6(s: Seq<char>) -> bool {
    if exists|i: int| is_double_colon_at(s, i) {
        exists|i: int|
            is_double_colon_at(s, i) && (forall|j: int| 0 <= j < i ==> !is_double_colon_at(s, j))
                && is_compressed_ipv6_at(s, i)
    } else {
        is_full_ipv6(s)
    }
}

/// The hosts a server may listen on: `localhost`, a dotted IPv4 address or
/// an IPv6 address.
pub open spec fn is_host_address(s: Seq<char>) -> bool {
    s == "localhost"@ || is_ipv4(s) || is_ipv6(s)
}

/// The texts of the parts, taken by their views.
pub open spec fn part_views(v: Seq<Vec<char>>) -> Seq<Seq<char>> {
    v.map_values(|p: Vec<char>| p@)
}

/// The characters of `s`.
fn chars_of(s: &str) -> (r: Vec<char>)
    ensures
        r@ == s@,
{
    let n = s.unicode_len();
    let mut r: Vec<char> = Vec::new();
    let mut i: usize = 0;
    while i < n
        invariant
            n == s@.len(),
            i <= n,
            r@ == s@.take(i as int),
        decreases n - i,
    {
        r.push(s.get_char(i));
        i = i + 1;
        assert(r@ =~= s@.take(i as int));
    }
    assert(r@ =~= s@);
    r
}

/// The characters `from..to` of `s`.
fn sub_chars(s: &Vec<char>, from: usize, to: usize) -> (r: Vec<char>)
    requires
        from <= to <= s@.len(),
    ensures
        r@ == s@.subrange(from as int, to as int),
{
    let mut r: Vec<char> = Vec::new();
    let mut i: usize = from;
    while i < to
        invariant
            from <= i <= to <= s@.len(),
            r@ == s@.subrange(from as int, i as int),
        decreases to - i,
    {
        r.push(s[i]);
        i = i + 1;
        assert(r@ =~= s@.subrange(from as int, i as int));
    }
    r
}

/// The parts of `s` between the occurrences of `sep`.
fn split_chars(s: &Vec<char>, sep: char) -> (r: Vec<Vec<char>>)
    ensures
        part_views(r@) == split(s@, sep),
{
    let mut parts: Vec<Vec<char>> = Vec::new();
    let mut cur: Vec<char> = Vec::new();
    let mut i: usize = 0;
    assert(s@.take(0) =~= Seq::<char>::empty());
    assert(part_views(parts@).push(cur@) =~= split(s@.take(0), sep));
    while i < s.len()
        invariant
            i <= s@.len(),
            part_views(parts@).push(cur@) == split(s@.take(i as int), sep),
        decreases s@.len() - i,
    {
        let c = s[i];
        let ghost before = s@.take(i as int);
        assert(s@.take(i + 1).drop_last() =~= before);
        if c == sep {
            parts.push(cur);
            cur = Vec::new();
            assert(part_views(parts@).push(cur@) =~= split(s@.take(i + 1), sep));
        } else {
            cur.push(c);
            assert(part_views(parts@).push(cur@) =~= split(s@.take(i + 1), sep));
        }
        i = i + 1;
    }
    assert(s@.take(s@.len() as int) =~= s@);
    parts.push(cur);
    assert(part_views(parts@) =~= split(s@, sep));
    parts
}

fn is_dec_digit_char(c: char) -> (r: bool)
    ensures
        r == is_dec_digit(c),
{
    '0' <= c && c <= '9'
}

fn is_hex_digit_char(c: char) -> (r: bool)
    ensures
        r == is_hex_digit(c),
{
    ('0' <= c && c <= '9') || ('a' <= c && c <= 'f') || ('A' <= c && c <= 'F')
}

/// Whether `g` is one group of an IPv6 address.
fn hex_group(g: &Vec<char>) -> (r: bool)
    ensures
        r == is_hex_group(g@),
{
    if g.len() < 1 || g.len() > 4 {
        return false;
    }
    let mut i: usize = 0;
    while i < g.len()
        invariant
            i <= g@.len(),
            forall|j: int| 0 <= j < i ==> is_hex_digit(#[trigger] g@[j]),
        decreases g@.len() - i,
    {
        if !is_hex_digit_char(g[i]) {
            return false;
        }
        i = i + 1;
    }
    true
}

/// Whether `g` is one part of a dotted IPv4 address.
fn dec_octet(g: &Vec<char>) -> (r: bool)
    ensures
        r == is_dec_octet(g@),
{
    if g.len() < 1 || g.len() > 3 {
        return false;
    }
    let mut value: u32 = 0;
    let mut i: usize = 0;
    while i < g.len()
        invariant
            g@.len() <= 3,
            i <= g@.len(),
            forall|j: int| 0 <= j < i ==> is_dec_digit(#[trigger] g@[j]),
            value == dec_value(g@.take(i as int)),
            i == 0 ==> value == 0,
            i == 1 ==> value < 10,
            i == 2 ==> value < 100,
            i == 3 ==> value < 1000,
        decreases g@.len() - i,
    {
        let c = g[i];
        if !is_dec_digit_char(c) {
            return false;
        }
        let d: u32 = (c as u32) - 48;
        assert(g@.take(i + 1).drop_last() =~= g@.take(i as int));
        value = value * 10 + d;
        i = i + 1;
    }
    assert(g@.take(g@.len() as int) =~= g@);
    if g.len() > 1 && g[0] == '0' {
        return false;
    }
    value <= 255
}

/// Whether `s` is a dotted IPv4 address.
fn ipv4(s: &Vec<char>) -> (r: bool)
    ensures
        r == is_ipv4(s@),
{
    let parts = split_chars(s, '.');
    proof {
        assert(part_views(parts@) == split(s@, '.'));
    }
    if parts.len() != 4 {
        return false;
    }
    let mut i: usize = 0;
    while i < 4
        invariant
            parts@.len() == 4,
            part_views(parts@) == split(s@, '.'),
            i <= 4,
            forall|j: int| 0 <= j < i ==> is_dec_octet(#[trigger] split(s@, '.')[j]),
        decreases 4 - i,
    {
        assert(part_views(parts@)[i as int] == parts@[i as int]@);
        if !dec_octet(&parts[i]) {
            return false;
        }
        i = i + 1;
    }
    true
}

/// Whether the first `n` parts of `parts` are IPv6 groups.
fn hex_groups_upto(parts: &Vec<Vec<char>>, n: usize) -> (r: bool)
    requires
        n <= parts@.len(),
    ensures
        r == all_hex_groups(part_views(parts@).take(n as int)),
{
    let mut i: usize = 0;
    while i < n
        invariant
            n <= parts@.len(),
            i <= n,
            forall|j: int| 0 <= j < i ==> is_hex_group(#[trigger] part_views(parts@)[j]),
        decreases n - i,
    {
        assert(part_views(parts@)[i as int] == parts@[i as int]@);
        if !hex_group(&parts[i]) {
            assert(part_views(parts@).take(n as int)[i as int] == part_views(parts@)[i as int]);
            return false;
        }
        i = i + 1;
    }
    assert forall|j: int| 0 <= j < n implies is_hex_group(
        #[trigger] part_views(parts@).take(n as int)[j],
    ) by {
        assert(part_views(parts@).take(n as int)[j] == part_views(parts@)[j]);
    }
    true
}

/// Whether `s` is an IPv6 address written without `::`.
fn full_ipv6(s: &Vec<char>) -> (r: bool)
    ensures
        r == is_full_ipv6(s@),
{
    let parts = split_chars(s, ':');
    if parts.len() == 8 {
        assert(part_views(parts@).take(8) =~= part_views(parts@));
        hex_groups_upto(&parts, 8)
    } else if parts.len() == 7 {
        assert(part_views(parts@)[6] == parts@[6]@);
        hex_groups_upto(&parts, 6) && ipv4(&parts[6])
    } else {
        false
    }
}

/// The number of groups before a `::`, as `head_weight` gives it.
fn head_groups(l: &Vec<char>) -> (r: Option<u128>)
    ensures
        r is Some == head_weight(l@) is Some,
        r matches Some(w) ==> head_weight(l@) == Some(w as nat) && w <= 0x1_0000_0000_0000_0000,
{
    if l.len() == 0 {
        return Some(0);
    }
    let parts = split_chars(l, ':');
    assert(part_views(parts@).take(parts@.len() as int) =~= part_views(parts@));
    if hex_groups_upto(&parts, parts.len()) {
        Some(parts.len() as u128)
    } else {
        None
    }
}

/// The number of groups after a `::`, as `tail_weight` gives it.
fn tail_groups(r: &Vec<char>) -> (w: Option<u128>)
    ensures
        w is Some == tail_weight(r@) is Some,
        w matches Some(n) ==> tail_weight(r@) == Some(n as nat) && n <= 0x1_0000_0000_0000_0000,
{
    if r.len() == 0 {
        return Some(0);
    }
    let parts = split_chars(r, ':');
    let n = parts.len();
    assert(part_views(parts@).take(n as int) =~= part_views(parts@));
    if hex_groups_upto(&parts, n) {
        return Some(n as u128);
    }
    if n >= 1 {
        assert(part_views(parts@).take(n - 1) =~= part_views(parts@).drop_last());
        assert(part_views(parts@).last() == parts@[n - 1]@);
        if hex_groups_upto(&parts, n - 1) && ipv4(&parts[n - 1]) {
            return Some(n as u128 + 1);
        }
    }
    None
}

/// Whether `s` is an IPv6 address whose first `::` is at `i`.
fn compressed_ipv6(s: &Vec<char>, i: usize) -> (r: bool)
    requires
        i + 2 <= s@.len(),
    ensures
        r == is_compressed_ipv6_at(s@, i as int),
{
    let len = s.len();
    assert(s@.len() == len);
    let head = sub_chars(s, 0, i);
    let tail = sub_chars(s, i + 2, len);
    assert(head@ =~= s@.take(i as int));
    assert(tail@ =~= s@.skip(i + 2));
    match (head_groups(&head), tail_groups(&tail)) {
        (Some(a), Some(b)) => a + b <= 7,
        _ => false,
    }
}

/// Whether `s` is an IPv6 address in one of its text forms.
fn ipv6(s: &Vec<char>) -> (r: bool)
    ensures
        r == is_ipv6(s@),
{
    let n = s.len();
    let mut i: usize = 0;
    while n > 0 && i < n - 1
        invariant
            n == s@.len(),
            forall|j: int| 0 <= j < i ==> !is_double_colon_at(s@, j),
        decreases n - i,
    {
        if s[i] == ':' && s[i + 1] == ':' {
            assert(is_double_colon_at(s@, i as int));
            let r = compressed_ipv6(s, i);
            proof {
                if !r {
                    assert forall|k: int|
                        is_double_colon_at(s@, k) && (forall|j: int|
                            0 <= j < k ==> !is_double_colon_at(s@, j)) implies !is_compressed_ipv6_at(
                        s@,
                        k,
                    ) by {
                        if k < i {
                        } else if k > i {
                            assert(!is_double_colon_at(s@, i as int));
                        }
                    }
                }
            }
            return r;
        }
        i = i + 1;
    }
    assert forall|k: int| !is_double_colon_at(s@, k) by {
        if 0 <= k && k < i {
        }
    }
    full_ipv6(s)
}

/// Whether `host` is an address a server may listen on: `localhost`, a
/// dotted IPv4 address with parts from 0 to 255, or an IPv6 address in any
/// of its text forms.
pub fn is_host_address_text(host: &str) -> (r: bool)
    ensures
        r == is_host_address(host@),
{
    let s = chars_of(host);
    let local = chars_of("localhost");
    let mut same = s.len() == local.len();
    if same {
        let mut i: usize = 0;
        while i < s.len()
            invariant
                s@.len() == local@.len(),
                i <= s@.len(),
                same == (forall|j: int| 0 <= j < i ==> s@[j] == local@[j]),
            decreases s@.len() - i,
        {
            same = same && s[i] == local[i];
            i = i + 1;
        }
        assert(same == (s@ =~= local@));
    } else {
        assert(s@ != local@);
    }
    same || ipv4(&s) || ipv6(&s)
}

/// The parts `gs` written one after another with `sep` between them.
pub open spec fn joined(gs: Seq<Seq<char>>, sep: char) -> Seq<char>
    decreases gs.len(),
{
    if gs.len() == 0 {
        Seq::empty()
    } else if gs.len() == 1 {
        gs[0]
    } else {
        joined(gs.drop_last(), sep) + seq![sep] + gs.last()
    }
}

/// The parts `gs` written one after another with `:` between them.
pub open spec fn colon_joined(gs: Seq<Seq<char>>) -> Seq<char> {
    joined(gs, ':')
}

proof fn lemma_split_append(s: Seq<char>, t: Seq<char>, sep: char)
    requires
        forall|i: int| 0 <= i < t.len() ==> t[i] != sep,
    ensures
        split(s + t, sep) == split(s, sep).update(
            split(s, sep).len() - 1,
            split(s, sep).last() + t,
        ),
        split(s, sep).len() >= 1,
    decreases t.len(),
{
    lemma_split_nonempty(s, sep);
    if t.len() == 0 {
        assert(s + t =~= s);
        assert(split(s, sep).last() + t =~= split(s, sep).last());
        assert(split(s, sep).update(split(s, sep).len() - 1, split(s, sep).last()) =~= split(
            s,
            sep,
        ));
    } else {
        let t0 = t.drop_last();
        lemma_split_append(s, t0, sep);
        assert((s + t).drop_last() =~= s + t0);
        assert((s + t).last() == t.last());
        let p = split(s + t0, sep);
        assert(split(s + t, sep) == p.update(p.len() - 1, p.last().push(t.last())));
        assert(p.last() == split(s, sep).last() + t0);
        assert(split(s, sep).last() + t0 + seq![t.last()] =~= split(s, sep).last() + t);
        assert(p.last().push(t.last()) =~= split(s, sep).last() + t);
        assert(split(s + t, sep) =~= split(s, sep).update(
            split(s, sep).len() - 1,
            split(s, sep).last() + t,
        ));
    }
}

proof fn lemma_split_nonempty(s: Seq<char>, sep: char)
    ensures
        split(s, sep).len() >= 1,
    decreases s.len(),
{
    if s.len() > 0 {
        lemma_split_nonempty(s.drop_last(), sep);
    }
}

/// Splitting the colon-joined parts at `:` gives the parts back, when no
/// part holds a `:`.
proof fn lemma_split_joined(gs: Seq<Seq<char>>, sep: char)
    requires
        gs.len() >= 1,
        forall|i: int, j: int| 0 <= i < gs.len() && 0 <= j < gs[i].len() ==> #[trigger] gs[i][j] != sep,
    ensures
        split(joined(gs, sep), sep) == gs,
    decreases gs.len(),
{
    if gs.len() == 1 {
        lemma_split_append(Seq::<char>::empty(), gs[0], sep);
        assert(Seq::<char>::empty() + gs[0] =~= gs[0]);
        assert(split(Seq::<char>::empty(), sep).last() + gs[0] =~= gs[0]);
        assert(split(gs[0], sep) =~= gs);
    } else {
        let init = gs.drop_last();
        lemma_split_joined(init, sep);
        let j = joined(init, sep) + seq![sep];
        assert(j.drop_last() =~= joined(init, sep));
        assert(split(j, sep) == init.push(Seq::<char>::empty()));
        assert forall|k: int| 0 <= k < gs.last().len() implies gs.last()[k] != sep by {
            assert(gs[gs.len() - 1][k] != sep);
        }
        lemma_split_append(j, gs.last(), sep);
        assert(Seq::<char>::empty() + gs.last() =~= gs.last());
        assert(split(joined(gs, sep), sep) =~= gs);
    }
}

/// A `::` leaves an empty part, which is not the last, in the split at `:`.
proof fn lemma_double_colon_empty_part(s: Seq<char>, i: int)
    requires
        is_double_colon_at(s, i),
    ensures
        exists|m: int| 0 <= m < split(s, ':').len() - 1 && (#[trigger] split(s, ':')[m]).len() == 0,
    decreases s.len(),
{
    let d = s.drop_last();
    lemma_split_nonempty(d, ':');
    if i + 2 == s.len() {
        let dd = d.drop_last();
        lemma_split_nonempty(dd, ':');
        assert(d.last() == ':');
        let pd = split(d, ':');
        assert(pd == split(dd, ':').push(Seq::<char>::empty()));
        assert(split(s, ':') == pd.push(Seq::<char>::empty()));
        assert(split(s, ':')[pd.len() - 1].len() == 0);
    } else {
        assert(is_double_colon_at(d, i));
        lemma_double_colon_empty_part(d, i);
        let m = choose|m: int| 0 <= m < split(d, ':').len() - 1 && (#[trigger] split(d, ':')[m]).len() == 0;
        assert(split(s, ':')[m] == split(d, ':')[m]);
    }
}

/// The characters that may make up an IPv6 group.
pub open spec fn hex_alphabet() -> Seq<char> {
    "0123456789abcdefABCDEF"@
}

proof fn lemma_hex_alphabet(c: char)
    requires
        hex_alphabet().contains(c),
    ensures
        is_hex_digit(c),
        c != ':',
{
    reveal_strlit("0123456789abcdefABCDEF");
    let k = choose|k: int| 0 <= k < hex_alphabet().len() && hex_alphabet()[k] == c;
    assert(0 <= k < 22);
}

/// Eight groups of one to four characters from `0`-`9`, `a`-`f` and `A`-`F`,
/// written with `:` between them, are a host address.
pub proof fn law_eight_hex_groups(gs: Seq<Seq<char>>)
    requires
        gs.len() == 8,
        forall|i: int| 0 <= i < 8 ==> 1 <= (#[trigger] gs[i]).len() <= 4,
        forall|i: int, j: int|
            0 <= i < 8 && 0 <= j < gs[i].len() ==> hex_alphabet().contains(#[trigger] gs[i][j]),
    ensures
        is_host_address(colon_joined(gs)),
{
    assert forall|i: int, j: int| 0 <= i < gs.len() && 0 <= j < gs[i].len() implies #[trigger] gs[i][j]
        != ':' by {
        lemma_hex_alphabet(gs[i][j]);
    }
    lemma_split_joined(gs, ':');
    let s = colon_joined(gs);
    assert forall|i: int| 0 <= i < 8 implies is_hex_group(#[trigger] gs[i]) by {
        assert forall|j: int| 0 <= j < gs[i].len() implies is_hex_digit(#[trigger] gs[i][j]) by {
            lemma_hex_alphabet(gs[i][j]);
        }
    }
    assert(all_hex_groups(split(s, ':')));
    if exists|i: int| is_double_colon_at(s, i) {
        let i = choose|i: int| is_double_colon_at(s, i);
        lemma_double_colon_empty_part(s, i);
        let m = choose|m: int| 0 <= m < split(s, ':').len() - 1 && (#[trigger] split(s, ':')[m]).len() == 0;
        assert(gs[m].len() >= 1);
    }
    assert(is_full_ipv6(s));
}

proof fn lemma_digit_char(d: nat)
    requires
        d < 10,
    ensures
        is_dec_digit(digit_char(d)),
        (digit_char(d) as u32) - 48 == d,
{
}

proof fn lemma_decimal_facts(n: nat)
    ensures
        decimal(n).len() >= 1,
        forall|i: int| 0 <= i < decimal(n).len() ==> is_dec_digit(#[trigger] decimal(n)[i]),
        dec_value(decimal(n)) == n,
        n >= 10 ==> decimal(n)[0] != '0',
        n < 10 ==> decimal(n).len() == 1,
        n < 100 ==> decimal(n).len() <= 2,
        n < 1000 ==> decimal(n).len() <= 3,
    decreases n,
{
    assert(dec_value(Seq::<char>::empty()) == 0);
    if n < 10 {
        lemma_digit_char(n);
        assert(decimal(n).drop_last() =~= Seq::<char>::empty());
        assert(dec_value(decimal(n)) == dec_value(Seq::<char>::empty()) * 10 + ((digit_char(n) as u32)
            - 48));
    } else {
        lemma_decimal_facts(n / 10);
        lemma_digit_char(n % 10);
        let d = decimal(n);
        assert(d.drop_last() =~= decimal(n / 10));
        assert(n == (n / 10) * 10 + n % 10);
        assert(dec_value(d) == dec_value(decimal(n / 10)) * 10 + ((digit_char(n % 10) as u32) - 48));
        assert(d[0] == decimal(n / 10)[0]);
        if n / 10 < 10 {
            lemma_digit_char(n / 10);
        }
        assert forall|i: int| 0 <= i < d.len() implies is_dec_digit(#[trigger] d[i]) by {
            if i < d.len() - 1 {
                assert(d[i] == decimal(n / 10)[i]);
            }
        }
    }
}

proof fn lemma_dec_value_positive(p: Seq<char>)
    requires
        p.len() >= 1,
        forall|i: int| 0 <= i < p.len() ==> is_dec_digit(#[trigger] p[i]),
        p[0] != '0',
    ensures
        dec_value(p) >= 1,
        dec_value(p) >= 0,
    decreases p.len(),
{
    assert(dec_value(Seq::<char>::empty()) == 0);
    assert(is_dec_digit(p[p.len() - 1]));
    assert(p.last() as u32 >= 48);
    if p.len() > 1 {
        let q = p.drop_last();
        assert(q[0] == p[0]);
        assert forall|i: int| 0 <= i < q.len() implies is_dec_digit(#[trigger] q[i]) by {
            assert(q[i] == p[i]);
        }
        lemma_dec_value_positive(q);
    } else {
        assert(is_dec_digit(p[0]));
        assert(p[0] as u32 > 48);
        assert(p.drop_last() =~= Seq::<char>::empty());
    }
}

proof fn lemma_dec_value_nonneg(p: Seq<char>)
    requires
        forall|i: int| 0 <= i < p.len() ==> is_dec_digit(#[trigger] p[i]),
    ensures
        dec_value(p) >= 0,
    decreases p.len(),
{
    if p.len() > 0 {
        let q = p.drop_last();
        assert forall|i: int| 0 <= i < q.len() implies is_dec_digit(#[trigger] q[i]) by {
            assert(q[i] == p[i]);
        }
        lemma_dec_value_nonneg(q);
        assert(is_dec_digit(p[p.len() - 1]));
        assert(p.last() as u32 >= 48);
    }
}

/// A decimal octet is the decimal notation of its value.
proof fn lemma_octet_is_decimal(p: Seq<char>)
    requires
        is_dec_octet(p),
    ensures
        dec_value(p) >= 0,
        decimal(dec_value(p) as nat) == p,
    decreases p.len(),
{
    lemma_dec_value_nonneg(p);
    let c = p.last();
    assert(is_dec_digit(c));
    let d = ((c as u32) - 48) as nat;
    assert(d < 10);
    lemma_digit_char(d);
    vstd::utf8::char_u32_cast(c, c as u32);
    vstd::utf8::char_u32_cast(digit_char(d), digit_char(d) as u32);
    assert(digit_char(d) == c);
    if p.len() == 1 {
        assert(p.drop_last() =~= Seq::<char>::empty());
        assert(dec_value(Seq::<char>::empty()) == 0);
        assert(dec_value(p) == dec_value(p.drop_last()) * 10 + ((c as u32) - 48));
        assert(dec_value(p) == d);
        assert(decimal(d) =~= p);
    } else {
        let q = p.drop_last();
        assert(q[0] == p[0]);
        assert forall|i: int| 0 <= i < q.len() implies is_dec_digit(#[trigger] q[i]) by {
            assert(q[i] == p[i]);
        }
        lemma_dec_value_positive(q);
        assert(dec_value(q) <= 25) by {
            assert(dec_value(p) == dec_value(q) * 10 + d);
        }
        assert(is_dec_octet(q)) by {
            if q.len() > 1 {
                assert(q[0] != '0');
            }
        }
        lemma_octet_is_decimal(q);
        let v = dec_value(p) as nat;
        assert(v == dec_value(q) * 10 + d);
        assert(v >= 10);
        assert(v / 10 == dec_value(q));
        assert(v % 10 == d);
        assert(decimal(v) == decimal(v / 10).push(digit_char(v % 10)));
        assert(decimal(v) =~= p);
    }
}

/// Four numbers written in decimal with `.` between them.
pub open spec fn dotted_quad(a: nat, b: nat, c: nat, d: nat) -> Seq<char> {
    decimal(a) + seq!['.'] + decimal(b) + seq!['.'] + decimal(c) + seq!['.'] + decimal(d)
}

proof fn lemma_dotted_quad_split(a: nat, b: nat, c: nat, d: nat)
    ensures
        dotted_quad(a, b, c, d) == joined(seq![decimal(a), decimal(b), decimal(c), decimal(d)], '.'),
{
    let gs = seq![decimal(a), decimal(b), decimal(c), decimal(d)];
    assert(gs.drop_last().drop_last().drop_last() =~= seq![decimal(a)]);
    assert(gs.drop_last().drop_last() =~= seq![decimal(a), decimal(b)]);
    assert(gs.drop_last() =~= seq![decimal(a), decimal(b), decimal(c)]);
    let g1 = seq![decimal(a)];
    let g2 = seq![decimal(a), decimal(b)];
    let g3 = seq![decimal(a), decimal(b), decimal(c)];
    assert(joined(g1, '.') == decimal(a));
    assert(g2.drop_last() =~= g1);
    assert(joined(g2, '.') == decimal(a) + seq!['.'] + decimal(b));
    assert(g3.drop_last() =~= g2);
    assert(joined(g3, '.') == decimal(a) + seq!['.'] + decimal(b) + seq!['.'] + decimal(c));
    assert(gs.drop_last() =~= g3);
    assert(joined(gs, '.') == joined(g3, '.') + seq!['.'] + decimal(d));
    assert(dotted_quad(a, b, c, d) =~= joined(gs, '.'));
}

/// Every dotted quad of numbers from 0 to 255, written in decimal, is a
/// host address.
pub proof fn law_dotted_quads_are_hosts(a: nat, b: nat, c: nat, d: nat)
    requires
        a <= 255,
        b <= 255,
        c <= 255,
        d <= 255,
    ensures
        is_host_address(dotted_quad(a, b, c, d)),
{
    let gs = seq![decimal(a), decimal(b), decimal(c), decimal(d)];
    lemma_decimal_facts(a);
    lemma_decimal_facts(b);
    lemma_decimal_facts(c);
    lemma_decimal_facts(d);
    assert forall|i: int, j: int| 0 <= i < gs.len() && 0 <= j < gs[i].len() implies #[trigger] gs[i][j]
        != '.' by {
        assert(is_dec_digit(gs[i][j]));
    }
    lemma_split_joined(gs, '.');
    lemma_dotted_quad_split(a, b, c, d);
    assert(is_dec_octet(gs[0]));
    assert(is_dec_octet(gs[1]));
    assert(is_dec_octet(gs[2]));
    assert(is_dec_octet(gs[3]));
    assert(is_ipv4(dotted_quad(a, b, c, d)));
}

proof fn lemma_joined_split(s: Seq<char>, sep: char)
    ensures
        joined(split(s, sep), sep) == s,
    decreases s.len(),
{
    if s.len() == 0 {
        assert(joined(seq![Seq::<char>::empty()], sep) == Seq::<char>::empty());
    } else {
        let t = s.drop_last();
        let c = s.last();
        lemma_joined_split(t, sep);
        lemma_split_nonempty(t, sep);
        let p = split(t, sep);
        if c == sep {
            let q = p.push(Seq::<char>::empty());
            assert(q.drop_last() =~= p);
            assert(joined(q, sep) == joined(p, sep) + seq![sep] + Seq::<char>::empty());
            assert(joined(q, sep) =~= s);
        } else {
            let q = p.update(p.len() - 1, p.last().push(c));
            if p.len() == 1 {
                assert(joined(q, sep) == q[0]);
                assert(joined(p, sep) == p[0]);
                assert(q[0] == p[0].push(c));
                assert(s =~= t.push(c));
                assert(joined(q, sep) =~= s);
            } else {
                assert(q.drop_last() =~= p.drop_last());
                assert(joined(q, sep) == joined(p.drop_last(), sep) + seq![sep] + q.last());
                assert(joined(p, sep) == joined(p.drop_last(), sep) + seq![sep] + p.last());
                assert(q.last() == p.last().push(c));
                assert(s =~= t.push(c));
                assert(joined(q, sep) =~= joined(p, sep).push(c));
            }
        }
    }
}

/// A host address made only of digits and `.` is a dotted quad of numbers
/// from 0 to 255 written in decimal (so without leading zeros): no part is
/// above 255, and there are exactly four parts.
pub proof fn law_numeric_hosts_are_dotted_quads(s: Seq<char>)
    requires
        forall|i: int| 0 <= i < s.len() ==> is_dec_digit(#[trigger] s[i]) || s[i] == '.',
        is_host_address(s),
    ensures
        exists|a: nat, b: nat, c: nat, d: nat|
            a <= 255 && b <= 255 && c <= 255 && d <= 255 && s == dotted_quad(a, b, c, d),
{
    reveal_strlit("localhost");
    if s == "localhost"@ {
        assert(s[0] == 'l');
        assert(false);
    }
    if exists|i: int| is_double_colon_at(s, i) {
        let i = choose|i: int| is_double_colon_at(s, i);
        assert(s[i] == ':');
        assert(false);
    }
    assert forall|i: int| 0 <= i < s.len() implies s[i] != ':' by {
        if is_dec_digit(s[i]) {
        }
    }
    lemma_split_append(Seq::<char>::empty(), s, ':');
    assert(Seq::<char>::empty() + s =~= s);
    assert(split(s, ':').len() == 1);
    assert(!is_full_ipv6(s));
    assert(is_ipv4(s));
    let p = split(s, '.');
    lemma_joined_split(s, '.');
    lemma_octet_is_decimal(p[0]);
    lemma_octet_is_decimal(p[1]);
    lemma_octet_is_decimal(p[2]);
    lemma_octet_is_decimal(p[3]);
    let a = dec_value(p[0]) as nat;
    let b = dec_value(p[1]) as nat;
    let c = dec_value(p[2]) as nat;
    let d = dec_value(p[3]) as nat;
    assert(p =~= seq![decimal(a), decimal(b), decimal(c), decimal(d)]);
    lemma_dotted_quad_split(a, b, c, d);
    assert(s == dotted_quad(a, b, c, d));
}

proof fn lemma_hex_groups_facts(gs: Seq<Seq<char>>)
    requires
        forall|i: int| 0 <= i < gs.len() ==> 1 <= (#[trigger] gs[i]).len() <= 4,
        forall|i: int, j: int|
            0 <= i < gs.len() && 0 <= j < gs[i].len() ==> hex_alphabet().contains(#[trigger] gs[i][j]),
    ensures
        forall|i: int, j: int| 0 <= i < gs.len() && 0 <= j < gs[i].len() ==> #[trigger] gs[i][j] != ':',
        all_hex_groups(gs),
        gs.len() >= 1 ==> split(colon_joined(gs), ':') == gs,
        gs.len() >= 1 ==> colon_joined(gs).len() >= 1 && colon_joined(gs).last() != ':',
        gs.len() == 0 <==> colon_joined(gs).len() == 0,
        forall|k: int| !is_double_colon_at(colon_joined(gs), k),
{
    assert forall|i: int, j: int| 0 <= i < gs.len() && 0 <= j < gs[i].len() implies #[trigger] gs[i][j]
        != ':' by {
        lemma_hex_alphabet(gs[i][j]);
    }
    assert forall|i: int| 0 <= i < gs.len() implies is_hex_group(#[trigger] gs[i]) by {
        assert forall|j: int| 0 <= j < gs[i].len() implies is_hex_digit(#[trigger] gs[i][j]) by {
            lemma_hex_alphabet(gs[i][j]);
        }
    }
    let s = colon_joined(gs);
    if gs.len() >= 1 {
        lemma_split_joined(gs, ':');
        if gs.len() == 1 {
            assert(s == gs[0]);
            assert(gs[0].last() == gs[0][gs[0].len() - 1]);
        } else {
            assert(s == joined(gs.drop_last(), ':') + seq![':'] + gs.last());
            assert(s.last() == gs.last().last());
            assert(gs.last().last() == gs[gs.len() - 1][gs.last().len() - 1]);
        }
        assert forall|k: int| !is_double_colon_at(s, k) by {
            if is_double_colon_at(s, k) {
                lemma_double_colon_empty_part(s, k);
                let m = choose|m: int|
                    0 <= m < split(s, ':').len() - 1 && (#[trigger] split(s, ':')[m]).len() == 0;
                assert(gs[m].len() >= 1);
            }
        }
    } else {
        assert(s.len() == 0);
    }
}

/// Up to seven groups of one to four characters from `0`-`9`, `a`-`f` and
/// `A`-`F`, with one `::` standing for the missing zero groups (before,
/// between or after them), are a host address.
pub proof fn law_compressed_hex_groups(head: Seq<Seq<char>>, tail: Seq<Seq<char>>)
    requires
        head.len() + tail.len() <= 7,
        forall|i: int| 0 <= i < head.len() ==> 1 <= (#[trigger] head[i]).len() <= 4,
        forall|i: int, j: int|
            0 <= i < head.len() && 0 <= j < head[i].len() ==> hex_alphabet().contains(
                #[trigger] head[i][j],
            ),
        forall|i: int| 0 <= i < tail.len() ==> 1 <= (#[trigger] tail[i]).len() <= 4,
        forall|i: int, j: int|
            0 <= i < tail.len() && 0 <= j < tail[i].len() ==> hex_alphabet().contains(
                #[trigger] tail[i][j],
            ),
    ensures
        is_host_address(colon_joined(head) + seq![':', ':'] + colon_joined(tail)),
{
    lemma_hex_groups_facts(head);
    lemma_hex_groups_facts(tail);
    let h = colon_joined(head);
    let t = colon_joined(tail);
    let s = h + seq![':', ':'] + t;
    let i = h.len() as int;
    assert(s[i] == ':' && s[i + 1] == ':');
    assert(is_double_colon_at(s, i));
    assert forall|j: int| 0 <= j < i implies !is_double_colon_at(s, j) by {
        if is_double_colon_at(s, j) {
            if j + 1 < i {
                assert(h[j] == s[j] && h[j + 1] == s[j + 1]);
                assert(is_double_colon_at(h, j));
            } else {
                assert(h.last() == s[j]);
            }
        }
    }
    assert(s.take(i) =~= h);
    assert(s.skip(i + 2) =~= t);
    if head.len() >= 1 {
        assert(head_weight(h) == Some(head.len()));
    } else {
        assert(head_weight(h) == Some(0nat));
    }
    if tail.len() >= 1 {
        assert(tail_weight(t) == Some(tail.len()));
    } else {
        assert(tail_weight(t) == Some(0nat));
    }
    assert(is_compressed_ipv6_at(s, i));
    assert(is_ipv6(s));
}

/// Whether every part of `gs` has one to four characters, each one of
/// `0`-`9`, `a`-`f` and `A`-`F`.
pub open spec fn hex_text_groups(gs: Seq<Seq<char>>) -> bool {
    &&& forall|i: int| 0 <= i < gs.len() ==> 1 <= (#[trigger] gs[i]).len() <= 4
    &&& forall|i: int, j: int|
        0 <= i < gs.len() && 0 <= j < gs[i].len() ==> hex_alphabet().contains(#[trigger] gs[i][j])
}

proof fn lemma_split_parts_chars(s: Seq<char>, sep: char)
    ensures
        forall|i: int, j: int|
            0 <= i < split(s, sep).len() && 0 <= j < split(s, sep)[i].len() ==> #[trigger] split(
                s,
                sep,
            )[i][j] != sep && s.contains(split(s, sep)[i][j]),
    decreases s.len(),
{
    if s.len() > 0 {
        let t = s.drop_last();
        lemma_split_parts_chars(t, sep);
        lemma_split_nonempty(t, sep);
        let p = split(t, sep);
        assert forall|i: int, j: int|
            0 <= i < split(s, sep).len() && 0 <= j < split(s, sep)[i].len() implies #[trigger] split(
            s,
            sep,
        )[i][j] != sep && s.contains(split(s, sep)[i][j]) by {
            let x = split(s, sep)[i][j];
            if s.last() == sep {
                if i < p.len() {
                    assert(x == p[i][j]);
                    assert(t.contains(x));
                    let k = choose|k: int| 0 <= k < t.len() && t[k] == x;
                    assert(s[k] == x);
                }
            } else {
                if i < p.len() - 1 || j < p[i].len() {
                    assert(x == p[i][j]);
                    assert(t.contains(x));
                    let k = choose|k: int| 0 <= k < t.len() && t[k] == x;
                    assert(s[k] == x);
                } else {
                    assert(x == s.last());
                    assert(s[s.len() - 1] == x);
                }
            }
        }
    }
}

proof fn lemma_split_without_sep(x: Seq<char>, sep: char)
    requires
        forall|i: int| 0 <= i < x.len() ==> x[i] != sep,
    ensures
        split(x, sep) == seq![x],
{
    lemma_split_append(Seq::<char>::empty(), x, sep);
    assert(Seq::<char>::empty() + x =~= x);
    assert(split(Seq::<char>::empty(), sep).last() + x =~= x);
    assert(split(x, sep) =~= seq![x]);
}

proof fn lemma_groups_from_split(s: Seq<char>, x: Seq<char>)
    requires
        x.len() >= 1,
        forall|i: int| 0 <= i < s.len() ==> hex_alphabet().contains(#[trigger] s[i]) || s[i] == ':',
        forall|i: int| 0 <= i < x.len() ==> s.contains(#[trigger] x[i]),
        all_hex_groups(split(x, ':')),
    ensures
        hex_text_groups(split(x, ':')),
        colon_joined(split(x, ':')) == x,
{
    let p = split(x, ':');
    lemma_split_parts_chars(x, ':');
    lemma_joined_split(x, ':');
    assert forall|i: int, j: int| 0 <= i < p.len() && 0 <= j < p[i].len() implies hex_alphabet().contains(
        #[trigger] p[i][j],
    ) by {
        let c = p[i][j];
        assert(x.contains(c));
        let k = choose|k: int| 0 <= k < x.len() && x[k] == c;
        assert(s.contains(x[k]));
        let m = choose|m: int| 0 <= m < s.len() && s[m] == x[k];
        assert(hex_alphabet().contains(s[m]) || s[m] == ':');
    }
    assert forall|i: int| 0 <= i < p.len() implies 1 <= (#[trigger] p[i]).len() <= 4 by {
        assert(is_hex_group(p[i]));
    }
}

/// Only texts of those shapes are host addresses among the texts made of
/// `0`-`9`, `a`-`f`, `A`-`F` and `:`: eight groups of one to four such
/// characters with `:` between them, or at most seven such groups with one
/// `::` among them.
pub proof fn law_hex_hosts_have_group_shape(s: Seq<char>)
    requires
        forall|i: int| 0 <= i < s.len() ==> hex_alphabet().contains(#[trigger] s[i]) || s[i] == ':',
        is_host_address(s),
    ensures
        (exists|gs: Seq<Seq<char>>| gs.len() == 8 && hex_text_groups(gs) && s == colon_joined(gs))
            || (exists|head: Seq<Seq<char>>, tail: Seq<Seq<char>>|
            head.len() + tail.len() <= 7 && hex_text_groups(head) && hex_text_groups(tail) && s
                == colon_joined(head) + seq![':', ':'] + colon_joined(tail)),
{
    reveal_strlit("localhost");
    reveal_strlit("0123456789abcdefABCDEF");
    assert forall|i: int| 0 <= i < s.len() implies s[i] != '.' by {
        if hex_alphabet().contains(s[i]) {
            let k = choose|k: int| 0 <= k < hex_alphabet().len() && hex_alphabet()[k] == s[i];
        }
    }
    if s == "localhost"@ {
        assert(s[0] == 'l');
        let k = choose|k: int| 0 <= k < hex_alphabet().len() && hex_alphabet()[k] == s[0];
        assert(false);
    }
    lemma_split_without_sep(s, '.');
    assert(!is_ipv4(s));
    assert forall|i: int| 0 <= i < s.len() implies s.contains(#[trigger] s[i]) by {}
    if exists|i: int| is_double_colon_at(s, i) {
        let i = choose|i: int|
            is_double_colon_at(s, i) && (forall|j: int| 0 <= j < i ==> !is_double_colon_at(s, j))
                && is_compressed_ipv6_at(s, i);
        let h = s.take(i);
        let t = s.skip(i + 2);
        assert(s =~= h + seq![':', ':'] + t);
        let head = if h.len() == 0 {
            Seq::<Seq<char>>::empty()
        } else {
            split(h, ':')
        };
        let tail = if t.len() == 0 {
            Seq::<Seq<char>>::empty()
        } else {
            split(t, ':')
        };
        if h.len() > 0 {
            assert forall|k: int| 0 <= k < h.len() implies s.contains(#[trigger] h[k]) by {
                assert(s[k] == h[k]);
            }
            lemma_groups_from_split(s, h);
        } else {
            assert(colon_joined(head) =~= h);
        }
        if t.len() > 0 {
            let p = split(t, ':');
            if !all_hex_groups(p) {
                lemma_split_nonempty(t, ':');
                lemma_split_parts_chars(t, ':');
                assert forall|k: int| 0 <= k < p.last().len() implies p.last()[k] != '.' by {
                    let c = p[p.len() - 1][k];
                    assert(t.contains(c));
                    let m = choose|m: int| 0 <= m < t.len() && t[m] == c;
                    assert(s[m + i + 2] == t[m]);
                }
                lemma_split_without_sep(p.last(), '.');
                assert(false);
            }
            assert forall|k: int| 0 <= k < t.len() implies s.contains(#[trigger] t[k]) by {
                assert(s[k + i + 2] == t[k]);
            }
            lemma_groups_from_split(s, t);
        } else {
            assert(colon_joined(tail) =~= t);
        }
        assert(head.len() + tail.len() <= 7);
        assert(s == colon_joined(head) + seq![':', ':'] + colon_joined(tail));
    } else {
        let p = split(s, ':');
        if p.len() == 7 && all_hex_groups(p.take(6)) && is_ipv4(p[6]) {
            lemma_split_parts_chars(s, ':');
            assert forall|k: int| 0 <= k < p[6].len() implies p[6][k] != '.' by {
                let c = p[6][k];
                assert(s.contains(c));
            }
            lemma_split_without_sep(p[6], '.');
            assert(false);
        }
        assert(p.len() == 8 && all_hex_groups(p));
        lemma_groups_from_split(s, s);
    }
}

/// The decimal notation of a number is a non-empty string of decimal
/// digits, without a leading zero unless the number is below 10, whose value
/// is the number again.
pub proof fn law_decimal_notation(n: nat)
    ensures
        decimal(n).len() >= 1,
        forall|i: int| 0 <= i < decimal(n).len() ==> is_dec_digit(#[trigger] decimal(n)[i]),
        dec_value(decimal(n)) == n,
        n >= 10 ==> decimal(n)[0] != '0',
{
    lemma_decimal_facts(n);
}

} // verus!
