//! Text forms of names and addresses.
use vstd::prelude::*;
use crate::name::labels_valid;

verus! {

/// Relies on `String::push`: appends one character.
#[verifier::external_body]
pub(crate) fn push_char(s: &mut String, c: char)
    ensures
        final(s)@ == old(s)@.push(c),
{
    s.push(c)
}

/// The character of an ASCII byte.
pub open spec fn ascii(b: u8) -> char {
    b as char
}

/// The decimal digit or lowercase hexadecimal digit of `d`.
pub open spec fn digit(d: int) -> char {
    if d < 10 { ascii((48 + d) as u8) } else { ascii((87 + d) as u8) }
}

/// The text of one label as hickory-proto's `Label` displays it.
pub uninterp spec fn label_text_of(l: Seq<u8>) -> Seq<char>;

/// Relies on hickory-proto's `Label::from_raw_bytes`, which accepts a label of 1 to 63
/// bytes, and on the label's `Display`: internationalised labels in Unicode, others
/// with unsafe bytes escaped. The text depends on the bytes alone.
#[verifier::external_body]
fn label_display(l: &[u8]) -> (r: String)
    requires
        1 <= l@.len() <= 63,
    ensures
        r@ == label_text_of(l@),
{
    match hickory_proto::rr::domain::Label::from_raw_bytes(l) {
        Ok(label) => label.to_string(),
        Err(_) => String::new(),
    }
}

/// The texts of the labels joined by `.`.
pub open spec fn joined_text(labels: Seq<Seq<u8>>) -> Seq<char>
    decreases labels.len(),
{
    if labels.len() == 0 {
        Seq::empty()
    } else if labels.len() == 1 {
        label_text_of(labels[0])
    } else {
        joined_text(labels.drop_last()) + seq!['.'] + label_text_of(labels.last())
    }
}

/// The text with every trailing `.` removed.
pub open spec fn trim_dots(t: Seq<char>) -> Seq<char>
    decreases t.len(),
{
    if t.len() > 0 && t.last() == '.' {
        trim_dots(t.drop_last())
    } else {
        t
    }
}

/// A name as its labels joined by `.`, without trailing dots.
pub open spec fn name_text(labels: Seq<Seq<u8>>) -> Seq<char> {
    trim_dots(joined_text(labels))
}

/// Digits of `n` in base `base`, without leading zeros.
pub open spec fn num_text(n: nat, base: nat) -> Seq<char>
    decreases n,
    via num_text_decreases
{
    if base < 2 || n < base {
        seq![digit(n as int)]
    } else {
        num_text(n / base, base) + seq![digit((n % base) as int)]
    }
}

#[via_fn]
proof fn num_text_decreases(n: nat, base: nat) {
    if !(base < 2 || n < base) {
        assert(n / base < n) by (nonlinear_arith)
            requires
                base >= 2,
                n >= base,
        ;
    }
}

/// Dotted-decimal form of four address bytes.
pub open spec fn ipv4_text(a: Seq<u8>) -> Seq<char> {
    num_text(a[0] as nat, 10) + seq!['.'] + num_text(a[1] as nat, 10) + seq!['.']
        + num_text(a[2] as nat, 10) + seq!['.'] + num_text(a[3] as nat, 10)
}

/// The text of a name: its labels as hickory-proto displays them, joined by `.`,
/// with the trailing dots removed.
pub fn name_string(labels: &Vec<Vec<u8>>) -> (r: String)
    requires
        labels_valid(crate::name::view_labels(labels@)),
    ensures
        r@ == name_text(crate::name::view_labels(labels@)),
{
    let ghost v = crate::name::view_labels(labels@);
    let mut s = String::new();
    let mut i: usize = 0;
    while i < labels.len()
        invariant
            v == crate::name::view_labels(labels@),
            labels_valid(v),
            i <= labels@.len(),
            s@ == joined_text(v.subrange(0, i as int)),
        decreases labels@.len() - i,
    {
        if i > 0 {
            push_char(&mut s, '.');
        }
        assert(v[i as int] == labels@[i as int]@);
        let t = label_display(labels[i].as_slice());
        s.append(t.as_str());
        assert(v.subrange(0, i + 1).drop_last() =~= v.subrange(0, i as int));
        i = i + 1;
        assert(s@ =~= joined_text(v.subrange(0, i as int)));
    }
    assert(v.subrange(0, i as int) =~= v);
    let n = s.as_str().unicode_len();
    let mut k: usize = n;
    assert(s@.subrange(0, n as int) =~= s@);
    while k > 0 && s.as_str().get_char(k - 1) == '.'
        invariant
            k <= n == s@.len(),
            trim_dots(s@) == trim_dots(s@.subrange(0, k as int)),
        decreases k,
    {
        assert(s@.subrange(0, k as int).drop_last() =~= s@.subrange(0, k - 1));
        k = k - 1;
    }
    assert(trim_dots(s@.subrange(0, k as int)) == s@.subrange(0, k as int));
    s.as_str().substring_char(0, k).to_owned()
}

/// The eight 16-bit groups of an IPv6 address.
pub open spec fn groups(a: Seq<u8>) -> Seq<u16> {
    Seq::new(8, |i: int| crate::message::u16_at(a, 2 * i))
}

/// Number of zero groups in a row from `i`.
pub open spec fn zero_run(g: Seq<u16>, i: int) -> nat
    decreases g.len() - i,
{
    if i < 0 || i >= g.len() || g[i] != 0 {
        0
    } else {
        1 + zero_run(g, i + 1)
    }
}

/// Start and length of the longest run of zero groups that starts before `n`;
/// the earliest of equally long runs.
pub open spec fn longest_run(g: Seq<u16>, n: nat) -> (int, nat)
    decreases n,
{
    if n == 0 {
        (0, 0)
    } else {
        let (s, l) = longest_run(g, (n - 1) as nat);
        let r = zero_run(g, n - 1);
        if r > l { (n - 1, r) } else { (s, l) }
    }
}

/// Groups in lowercase hexadecimal without leading zeros, joined by `:`.
pub open spec fn groups_text(g: Seq<u16>) -> Seq<char>
    decreases g.len(),
{
    if g.len() == 0 {
        Seq::empty()
    } else if g.len() == 1 {
        num_text(g[0] as nat, 16)
    } else {
        groups_text(g.drop_last()) + seq![':'] + num_text(g.last() as nat, 16)
    }
}

/// Whether the address is an IPv4 address mapped into IPv6 (`::ffff:a.b.c.d`).
pub open spec fn is_v4_mapped(a: Seq<u8>) -> bool {
    (forall|i: int| 0 <= i < 10 ==> a[i] == 0) && a[10] == 0xff && a[11] == 0xff
}

/// The text of sixteen address bytes: a mapped IPv4 address after `::ffff:`,
/// else the groups with the longest run of two or more zero groups written `::`.
pub open spec fn ipv6_text(a: Seq<u8>) -> Seq<char> {
    if is_v4_mapped(a) {
        seq![':', ':', 'f', 'f', 'f', 'f', ':'] + ipv4_text(a.subrange(12, 16))
    } else {
        let g = groups(a);
        let (s, l) = longest_run(g, 8);
        if l > 1 {
            groups_text(g.subrange(0, s)) + seq![':', ':'] + groups_text(g.subrange(s + l, 8))
        } else {
            groups_text(g)
        }
    }
}

fn digit_char(d: u16) -> (c: char)
    requires
        d < 16,
    ensures
        c == digit(d as int),
{
    if d < 10 { (48 + d) as u8 as char } else { (87 + d) as u8 as char }
}

fn push_num(s: &mut String, n: u16, base: u16)
    requires
        2 <= base <= 16,
    ensures
        final(s)@ == old(s)@ + num_text(n as nat, base as nat),
    decreases n,
{
    if n < base {
        push_char(s, digit_char(n));
        assert(final(s)@ =~= old(s)@ + num_text(n as nat, base as nat));
    } else {
        assert(n / base < n) by (nonlinear_arith)
            requires
                base >= 2,
                n >= base,
        ;
        push_num(s, n / base, base);
        push_char(s, digit_char(n % base));
        assert(final(s)@ =~= old(s)@ + num_text(n as nat, base as nat));
    }
}

/// Appends the dotted-decimal text of the four bytes at `off`.
pub fn push_ipv4(s: &mut String, a: &[u8], off: usize)
    requires
        off + 4 <= a@.len(),
    ensures
        final(s)@ == old(s)@ + ipv4_text(a@.subrange(off as int, off + 4)),
{
    push_num(s, a[off] as u16, 10);
    push_char(s, '.');
    push_num(s, a[off + 1] as u16, 10);
    push_char(s, '.');
    push_num(s, a[off + 2] as u16, 10);
    push_char(s, '.');
    push_num(s, a[off + 3] as u16, 10);
    assert(final(s)@ =~= old(s)@ + ipv4_text(a@.subrange(off as int, off + 4)));
}

fn push_groups(s: &mut String, g: &Vec<u16>, from: usize, to: usize)
    requires
        from <= to <= g@.len(),
    ensures
        final(s)@ == old(s)@ + groups_text(g@.subrange(from as int, to as int)),
{
    let mut i: usize = from;
    while i < to
        invariant
            from <= i <= to <= g@.len(),
            s@ == old(s)@ + groups_text(g@.subrange(from as int, i as int)),
        decreases to - i,
    {
        if i > from {
            push_char(s, ':');
        }
        push_num(s, g[i], 16);
        assert(g@.subrange(from as int, i + 1).drop_last() =~= g@.subrange(from as int, i as int));
        i = i + 1;
        assert(s@ =~= old(s)@ + groups_text(g@.subrange(from as int, i as int)));
    }
}

fn zero_run_len(g: &Vec<u16>, i: usize) -> (r: usize)
    requires
        i <= g@.len(),
    ensures
        r == zero_run(g@, i as int),
        i + r <= g@.len(),
{
    let mut j: usize = i;
    while j < g.len() && g[j] == 0
        invariant
            i <= j <= g@.len(),
            zero_run(g@, i as int) == (j - i) + zero_run(g@, j as int),
        decreases g@.len() - j,
    {
        j = j + 1;
    }
    j - i
}

/// Appends the text of an IPv6 address.
pub fn push_ipv6(s: &mut String, a: &[u8])
    requires
        a@.len() == 16,
    ensures
        final(s)@ == old(s)@ + ipv6_text(a@),
{
    let mut mapped = a[10] == 0xff && a[11] == 0xff;
    let mut k: usize = 0;
    while k < 10
        invariant
            k <= 10,
            a@.len() == 16,
            mapped == ((forall|i: int| 0 <= i < k ==> a@[i] == 0) && a@[10] == 0xff && a@[11]
                == 0xff),
        decreases 10 - k,
    {
        if a[k] != 0 {
            mapped = false;
        }
        k = k + 1;
    }
    if mapped {
        push_char(s, ':');
        push_char(s, ':');
        push_char(s, 'f');
        push_char(s, 'f');
        push_char(s, 'f');
        push_char(s, 'f');
        push_char(s, ':');
        push_ipv4(s, a, 12);
        assert(final(s)@ =~= old(s)@ + ipv6_text(a@));
        return ;
    }
    let mut g: Vec<u16> = Vec::new();
    let mut i: usize = 0;
    while i < 8
        invariant
            i <= 8,
            a@.len() == 16,
            g@ =~= groups(a@).subrange(0, i as int),
        decreases 8 - i,
    {
        g.push((a[2 * i] as u16) * 256 + a[2 * i + 1] as u16);
        i = i + 1;
    }
    assert(g@ =~= groups(a@));
    let mut best_s: usize = 0;
    let mut best_l: usize = 0;
    let mut n: usize = 0;
    while n < 8
        invariant
            n <= 8,
            g@ == groups(a@),
            longest_run(g@, n as nat) == (best_s as int, best_l as nat),
            best_s + best_l <= 8,
        decreases 8 - n,
    {
        let r = zero_run_len(&g, n);
        if r > best_l {
            best_s = n;
            best_l = r;
        }
        n = n + 1;
    }
    if best_l > 1 {
        push_groups(s, &g, 0, best_s);
        push_char(s, ':');
        push_char(s, ':');
        push_groups(s, &g, best_s + best_l, 8);
    } else {
        push_groups(s, &g, 0, 8);
        assert(g@.subrange(0, 8) =~= g@);
    }
    assert(final(s)@ =~= old(s)@ + ipv6_text(a@));
}

} // verus!
