//! Internet addresses and their canonical text.
//!
//! An IPv4 address is written as four decimal numbers between dots. An IPv6
//! address is written as groups of lower-case hexadecimal digits between
//! colons, its first longest run of two or more zero groups as `::`, and an
//! address that maps an IPv4 address as `::ffff:` and the dotted form.

use vstd::prelude::*;
use vstd::string::*;
use crate::text::{
    all_digits, decimal, digits_value, is_digit, push_decimal, slice_views, split, split_at_each,
};

verus! {

/// An address of a host.
#[derive(Debug, Clone, Copy, PartialEq, Eq, Hash)]
pub enum IpAddr {
    /// The four bytes of an IPv4 address.
    V4([u8; 4]),
    /// The eight groups of an IPv6 address.
    V6([u16; 8]),
}

/// A peer of the relay: an IPv6 address, which may map an IPv4 one, and a port.
#[derive(Debug, Clone, Copy, PartialEq, Eq, Hash)]
pub struct Peer {
    pub ip: [u16; 8],
    pub port: u16,
}

/// The character of a hexadecimal digit `d < 16`, in lower case.
pub open spec fn hex_digit_char(d: nat) -> char {
    if d < 10 {
        (('0' as u8) + (d as u8)) as char
    } else {
        (('a' as u8) + ((d - 10) as u8)) as char
    }
}

/// The shortest hexadecimal numeral of `n`, in lower case.
pub open spec fn hex(n: nat) -> Seq<char>
    decreases n,
{
    if n < 16 {
        seq![hex_digit_char(n)]
    } else {
        hex(n / 16).push(hex_digit_char(n % 16))
    }
}

/// The pieces one after another, with `sep` between each two.
pub open spec fn join(pieces: Seq<Seq<char>>, sep: char) -> Seq<char>
    decreases pieces.len(),
{
    if pieces.len() == 0 {
        Seq::empty()
    } else if pieces.len() == 1 {
        pieces[0]
    } else {
        pieces[0] + seq![sep] + join(pieces.drop_first(), sep)
    }
}

/// The decimal numerals of the bytes.
pub open spec fn decimals(octets: Seq<u8>) -> Seq<Seq<char>> {
    Seq::new(octets.len(), |i: int| decimal(octets[i] as nat))
}

/// The hexadecimal numerals of the groups.
pub open spec fn hexes(groups: Seq<u16>) -> Seq<Seq<char>> {
    Seq::new(groups.len(), |i: int| hex(groups[i] as nat))
}

/// The text of an IPv4 address.
pub open spec fn v4_text(octets: Seq<u8>) -> Seq<char> {
    join(decimals(octets), '.')
}

/// The text of some groups of an IPv6 address: their numerals between colons.
pub open spec fn groups_text(groups: Seq<u16>) -> Seq<char> {
    join(hexes(groups), ':')
}

/// Whether the `len` groups from `start` on are all zero.
pub open spec fn zero_run(groups: Seq<u16>, start: int, len: int) -> bool {
    &&& 0 <= start
    &&& 0 <= len
    &&& start + len <= groups.len()
    &&& forall|i: int| start <= i < start + len ==> groups[i] == 0
}

/// Whether the `len` groups from `start` on are the first longest run of zero groups.
pub open spec fn longest_zero_run(groups: Seq<u16>, start: int, len: int) -> bool {
    &&& zero_run(groups, start, len)
    &&& forall|s: int, l: int| #[trigger]
        zero_run(groups, s, l) ==> l < len || (l == len && start <= s)
}

/// Whether the groups map an IPv4 address: five zero groups and one of `ffff` in front.
pub open spec fn is_v4_mapped(groups: Seq<u16>) -> bool {
    &&& groups.len() == 8
    &&& forall|i: int| 0 <= i < 5 ==> groups[i] == 0
    &&& groups[5] == 0xffff
}

/// The four bytes of the last two groups.
pub open spec fn mapped_octets(groups: Seq<u16>) -> Seq<u8> {
    seq![
        (groups[6] / 256) as u8,
        (groups[6] % 256) as u8,
        (groups[7] / 256) as u8,
        (groups[7] % 256) as u8,
    ]
}

/// The groups that map the IPv4 address of the given bytes.
pub open spec fn mapped_groups(octets: Seq<u8>) -> Seq<u16> {
    seq![
        0u16,
        0u16,
        0u16,
        0u16,
        0u16,
        0xffffu16,
        (octets[0] * 256 + octets[1]) as u16,
        (octets[2] * 256 + octets[3]) as u16,
    ]
}

/// The text of an IPv6 address of eight groups.
pub open spec fn v6_text(groups: Seq<u16>) -> Seq<char> {
    if is_v4_mapped(groups) {
        "::ffff:"@ + v4_text(mapped_octets(groups))
    } else {
        let run = choose|run: (int, int)| longest_zero_run(groups, run.0, run.1);
        if run.1 > 1 {
            groups_text(groups.subrange(0, run.0)) + "::"@ + groups_text(
                groups.subrange(run.0 + run.1, 8),
            )
        } else {
            groups_text(groups)
        }
    }
}

/// What an address holds.
pub enum IpView {
    V4(Seq<u8>),
    V6(Seq<u16>),
}

impl View for IpAddr {
    type V = IpView;

    open spec fn view(&self) -> IpView {
        match self {
            IpAddr::V4(octets) => IpView::V4(octets@),
            IpAddr::V6(groups) => IpView::V6(groups@),
        }
    }
}

impl IpView {
    /// Whether the address has four bytes or eight groups.
    pub open spec fn wf(self) -> bool {
        match self {
            IpView::V4(octets) => octets.len() == 4,
            IpView::V6(groups) => groups.len() == 8,
        }
    }

    /// The canonical text of the address.
    pub open spec fn text(self) -> Seq<char> {
        match self {
            IpView::V4(octets) => v4_text(octets),
            IpView::V6(groups) => v6_text(groups),
        }
    }
}

/// Appends the hexadecimal numeral of `n` to `out`.
pub fn push_hex(out: &mut String, n: u16)
    ensures
        final(out)@ == old(out)@ + hex(n as nat),
    decreases n,
{
    if n >= 16 {
        push_hex(out, n / 16);
    }
    let d: u8 = (n % 16) as u8;
    let c = if d < 10 {
        (0x30u8 + d) as char
    } else {
        (0x61u8 + (d - 10)) as char
    };
    out.push(c);
    assert(final(out)@ =~= old(out)@ + hex(n as nat));
}

/// Appends the text of an IPv4 address to `out`.
pub fn push_v4(out: &mut String, octets: &[u8; 4])
    ensures
        final(out)@ == old(out)@ + v4_text(octets@),
{
    push_decimal(out, octets[0] as u64);
    out.push('.');
    push_decimal(out, octets[1] as u64);
    out.push('.');
    push_decimal(out, octets[2] as u64);
    out.push('.');
    push_decimal(out, octets[3] as u64);
    proof {
        let d = decimals(octets@);
        let d1 = d.drop_first();
        let d2 = d1.drop_first();
        let d3 = d2.drop_first();
        assert(join(d3, '.') == d3[0]);
        assert(join(d2, '.') == d2[0] + seq!['.'] + join(d3, '.'));
        assert(join(d1, '.') == d1[0] + seq!['.'] + join(d2, '.'));
        assert(join(d, '.') == d[0] + seq!['.'] + join(d1, '.'));
        assert(final(out)@ =~= old(out)@ + v4_text(octets@));
    }
}

/// Appends the numerals of the groups from `from` up to `to`, with colons between them.
fn push_groups(out: &mut String, groups: &[u16; 8], from: usize, to: usize)
    requires
        from <= to <= 8,
    ensures
        final(out)@ == old(out)@ + groups_text(groups@.subrange(from as int, to as int)),
{
    let ghost part = groups@.subrange(from as int, to as int);
    let mut i: usize = from;
    assert(hexes(part).skip(0) =~= hexes(part));
    while i < to
        invariant
            from <= i <= to <= 8,
            part == groups@.subrange(from as int, to as int),
            i == from ==> out@ == old(out)@,
            i > from ==> out@ + (if i < to {
                seq![':']
            } else {
                Seq::<char>::empty()
            }) + join(hexes(part).skip(i - from), ':') == old(out)@ + join(hexes(part), ':'),
        decreases to - i,
    {
        let ghost before = out@;
        let ghost rest = hexes(part).skip(i - from);
        if i > from {
            out.push(':');
        }
        push_hex(out, groups[i]);
        proof {
            assert(rest[0] == hex(groups@[i as int] as nat));
            assert(rest.drop_first() =~= hexes(part).skip(i + 1 - from));
            if i + 1 < to {
                assert(join(rest, ':') == rest[0] + seq![':'] + join(rest.drop_first(), ':'));
                assert(out@ + seq![':'] + join(hexes(part).skip(i + 1 - from), ':') =~= old(out)@
                    + join(hexes(part), ':'));
            } else {
                assert(join(rest, ':') == rest[0]);
                assert(join(rest.drop_first(), ':') =~= Seq::<char>::empty());
                assert(out@ + Seq::<char>::empty() + join(hexes(part).skip(i + 1 - from), ':')
                    =~= old(out)@ + join(hexes(part), ':'));
            }
        }
        i += 1;
    }
    proof {
        if from == to {
            assert(hexes(part) =~= Seq::<Seq<char>>::empty());
            assert(out@ =~= old(out)@ + groups_text(part));
        } else {
            assert(hexes(part).skip(to - from) =~= Seq::<Seq<char>>::empty());
            assert(out@ =~= old(out)@ + groups_text(part));
        }
    }
}

/// The number of zero groups that follow each other from `start` on.
fn zeros_from(groups: &[u16; 8], start: usize) -> (len: usize)
    requires
        start <= 8,
    ensures
        zero_run(groups@, start as int, len as int),
        start + len == 8 || groups@[start + len] != 0,
{
    let mut len: usize = 0;
    while start + len < 8 && groups[start + len] == 0
        invariant
            start + len <= 8,
            zero_run(groups@, start as int, len as int),
        decreases 8 - len,
    {
        len += 1;
    }
    len
}

/// The first longest run of zero groups: where it starts and how long it is.
fn find_longest_zero_run(groups: &[u16; 8]) -> (run: (usize, usize))
    ensures
        longest_zero_run(groups@, run.0 as int, run.1 as int),
{
    let mut best_start: usize = 0;
    let mut best_len: usize = 0;
    let mut start: usize = 0;
    while start <= 8
        invariant
            start <= 9,
            zero_run(groups@, best_start as int, best_len as int),
            best_start <= start,
            forall|s: int, l: int|
                s < start && #[trigger] zero_run(groups@, s, l) ==> l < best_len || (l == best_len
                    && best_start <= s),
        decreases 9 - start,
    {
        let len = zeros_from(groups, start);
        proof {
            assert forall|l: int| #[trigger] zero_run(groups@, start as int, l) implies l
                <= len by {
                if l > len {
                    assert(groups@[start + len] == 0);
                }
            }
        }
        if len > best_len {
            best_start = start;
            best_len = len;
        }
        start += 1;
    }
    (best_start, best_len)
}

/// Appends the text of an IPv6 address to `out`.
pub fn push_v6(out: &mut String, groups: &[u16; 8])
    ensures
        final(out)@ == old(out)@ + v6_text(groups@),
{
    if groups[0] == 0 && groups[1] == 0 && groups[2] == 0 && groups[3] == 0 && groups[4] == 0
        && groups[5] == 0xffff {
        out.append("::ffff:");
        let octets = [
            (groups[6] / 256) as u8,
            (groups[6] % 256) as u8,
            (groups[7] / 256) as u8,
            (groups[7] % 256) as u8,
        ];
        assert(octets@ =~= mapped_octets(groups@));
        push_v4(out, &octets);
        assert(final(out)@ =~= old(out)@ + v6_text(groups@));
    } else {
        let (start, len) = find_longest_zero_run(groups);
        proof {
            let run = choose|run: (int, int)| longest_zero_run(groups@, run.0, run.1);
            assert(longest_zero_run(groups@, (start as int, len as int).0, (start as int, len as int).1));
            assert(zero_run(groups@, run.0, run.1));
            assert(zero_run(groups@, start as int, len as int));
            assert(run.0 == start && run.1 == len);
        }
        if len > 1 {
            push_groups(out, groups, 0, start);
            out.append("::");
            push_groups(out, groups, start + len, 8);
        } else {
            push_groups(out, groups, 0, 8);
            assert(groups@.subrange(0, 8) =~= groups@);
        }
        assert(final(out)@ =~= old(out)@ + v6_text(groups@));
    }
}

impl IpAddr {
    /// The canonical text of the address.
    pub fn to_text(&self) -> (r: String)
        ensures
            r@ == self@.text(),
    {
        let mut out = String::new();
        match self {
            IpAddr::V4(octets) => push_v4(&mut out, octets),
            IpAddr::V6(groups) => push_v6(&mut out, groups),
        }
        assert(out@ =~= self@.text());
        out
    }

    /// The address as an IPv6 address: an IPv4 address is mapped.
    pub fn to_v6_mapped(&self) -> (r: [u16; 8])
        ensures
            r@ == match *self {
                IpAddr::V4(octets) => mapped_groups(octets@),
                IpAddr::V6(groups) => groups@,
            },
    {
        match self {
            IpAddr::V4(octets) => {
                let r = [
                    0u16,
                    0u16,
                    0u16,
                    0u16,
                    0u16,
                    0xffffu16,
                    octets[0] as u16 * 256 + octets[1] as u16,
                    octets[2] as u16 * 256 + octets[3] as u16,
                ];
                assert(r@ =~= mapped_groups(octets@));
                r
            },
            IpAddr::V6(groups) => *groups,
        }
    }
}

impl Peer {
    /// The peer at `ip` and `port`; an IPv4 address is mapped into IPv6.
    pub fn new(ip: IpAddr, port: u16) -> (r: Self)
        ensures
            r.port == port,
            r.ip@ == match ip {
                IpAddr::V4(octets) => mapped_groups(octets@),
                IpAddr::V6(groups) => groups@,
            },
    {
        Peer { ip: ip.to_v6_mapped(), port }
    }

    /// The text of the peer's address, by which the catalog knows the peer.
    pub open spec fn ip_text(self) -> Seq<char> {
        v6_text(self.ip@)
    }

    /// The text of the peer's address.
    pub fn ip_to_text(&self) -> (r: String)
        ensures
            r@ == self.ip_text(),
    {
        let mut out = String::new();
        push_v6(&mut out, &self.ip);
        assert(out@ =~= self.ip_text());
        out
    }
}

/// The byte that a piece of a dotted address denotes: one to three decimal
/// digits, without a zero in front of another digit, and at most 255.
pub open spec fn octet_value(piece: Seq<char>) -> Option<u8> {
    if 1 <= piece.len() <= 3 && all_digits(piece) && (piece.len() == 1 || piece[0] != '0')
        && digits_value(piece) <= 255 {
        Some(digits_value(piece) as u8)
    } else {
        None
    }
}

/// The address that a dotted text denotes: four bytes between three dots.
pub open spec fn parse_v4(text: Seq<char>) -> Option<Seq<u8>> {
    let pieces = split(text, '.');
    if pieces.len() == 4 && (forall|i: int| 0 <= i < 4 ==> octet_value(#[trigger] pieces[i]) is Some) {
        Some(Seq::new(4, |i: int| octet_value(pieces[i])->Some_0))
    } else {
        None
    }
}

/// The value of a hexadecimal digit of either case.
pub open spec fn hex_digit_value(c: char) -> Option<nat> {
    if '0' <= c && c <= '9' {
        Some((c as u8 - '0' as u8) as nat)
    } else if 'a' <= c && c <= 'f' {
        Some((c as u8 - 'a' as u8 + 10) as nat)
    } else if 'A' <= c && c <= 'F' {
        Some((c as u8 - 'A' as u8 + 10) as nat)
    } else {
        None
    }
}

/// Whether every character of `piece` is a hexadecimal digit.
pub open spec fn all_hex(piece: Seq<char>) -> bool {
    forall|i: int| 0 <= i < piece.len() ==> hex_digit_value(#[trigger] piece[i]) is Some
}

/// The number that a sequence of hexadecimal digits denotes.
pub open spec fn hex_digits_value(piece: Seq<char>) -> nat
    decreases piece.len(),
{
    if piece.len() == 0 {
        0
    } else {
        hex_digits_value(piece.drop_last()) * 16 + (match hex_digit_value(piece.last()) {
            Some(d) => d,
            None => 0,
        })
    }
}

/// The group that a piece of an IPv6 text denotes: one to four hexadecimal digits.
pub open spec fn hex_value(piece: Seq<char>) -> Option<u16> {
    if 1 <= piece.len() <= 4 && all_hex(piece) {
        Some(hex_digits_value(piece) as u16)
    } else {
        None
    }
}

/// The groups that the pieces denote, if each denotes one.
pub open spec fn groups_of(pieces: Seq<Seq<char>>) -> Option<Seq<u16>> {
    if forall|i: int| 0 <= i < pieces.len() ==> hex_value(#[trigger] pieces[i]) is Some {
        Some(Seq::new(pieces.len(), |i: int| hex_value(pieces[i])->Some_0))
    } else {
        None
    }
}

/// The two groups that hold the four bytes of an IPv4 address.
pub open spec fn v4_groups(octets: Seq<u8>) -> Seq<u16> {
    seq![(octets[0] * 256 + octets[1]) as u16, (octets[2] * 256 + octets[3]) as u16]
}

/// The groups in front of a `::`: none for the empty text, else one for
/// each piece between colons.
pub open spec fn head_groups(text: Seq<char>) -> Option<Seq<u16>> {
    if text.len() == 0 {
        Some(Seq::empty())
    } else {
        groups_of(split(text, ':'))
    }
}

/// The groups behind a `::`, or of a text without one: as in front, but the
/// last piece may be a dotted address, which gives two groups.
pub open spec fn tail_groups(text: Seq<char>) -> Option<Seq<u16>> {
    if text.len() == 0 {
        Some(Seq::empty())
    } else {
        let pieces = split(text, ':');
        match parse_v4(pieces.last()) {
            Some(octets) => match groups_of(pieces.drop_last()) {
                Some(groups) => Some(groups + v4_groups(octets)),
                None => None,
            },
            None => groups_of(pieces),
        }
    }
}

/// Whether two colons stand at positions `i` and `i + 1`.
pub open spec fn double_colon_at(text: Seq<char>, i: int) -> bool {
    0 <= i && i + 1 < text.len() && text[i] == ':' && text[i + 1] == ':'
}

/// Whether the first two colons that follow each other stand at `i`.
pub open spec fn first_double_colon(text: Seq<char>, i: int) -> bool {
    double_colon_at(text, i) && forall|j: int| 0 <= j < i ==> !double_colon_at(text, j)
}

/// That many zero groups.
pub open spec fn zero_groups(count: int) -> Seq<u16> {
    Seq::new(count as nat, |i: int| 0u16)
}

/// The address that an IPv6 text denotes. Without `::` the text holds all
/// eight groups. With `::`, which stands for one or more zero groups, it
/// holds at most seven, in front and behind.
pub open spec fn parse_v6(text: Seq<char>) -> Option<Seq<u16>> {
    if exists|i: int| double_colon_at(text, i) {
        let i = choose|i: int| first_double_colon(text, i);
        match (head_groups(text.take(i)), tail_groups(text.skip(i + 2))) {
            (Some(head), Some(tail)) => if head.len() + tail.len() <= 7 {
                Some(head + zero_groups(8 - head.len() - tail.len()) + tail)
            } else {
                None
            },
            _ => None,
        }
    } else {
        match tail_groups(text) {
            Some(groups) => if groups.len() == 8 {
                Some(groups)
            } else {
                None
            },
            None => None,
        }
    }
}

/// The address that a text denotes: a dotted IPv4 address, else an IPv6 address.
pub open spec fn parse_ip(text: Seq<char>) -> Option<IpView> {
    match parse_v4(text) {
        Some(octets) => Some(IpView::V4(octets)),
        None => match parse_v6(text) {
            Some(groups) => Some(IpView::V6(groups)),
            None => None,
        },
    }
}

/// Reads one byte of a dotted address.
pub fn read_octet(piece: &[char]) -> (r: Option<u8>)
    ensures
        r == octet_value(piece@),
{
    if piece.len() < 1 || piece.len() > 3 {
        return None;
    }
    if piece.len() > 1 && piece[0] == '0' {
        return None;
    }
    let mut value: u32 = 0;
    let mut i: usize = 0;
    while i < piece.len()
        invariant
            i <= piece@.len() <= 3,
            all_digits(piece@.take(i as int)),
            value == digits_value(piece@.take(i as int)),
            value <= 999,
        decreases piece@.len() - i,
    {
        let c = piece[i];
        if c < '0' || c > '9' {
            return None;
        }
        let d = (c as u32) - ('0' as u32);
        proof {
            let longer = piece@.take(i + 1);
            assert(longer.drop_last() =~= piece@.take(i as int));
            assert(longer.last() == c);
            assert forall|j: int| 0 <= j < longer.len() implies is_digit(#[trigger] longer[j]) by {
                if j < i {
                    assert(piece@.take(i as int)[j] == longer[j]);
                }
            }
            lemma_digits_bound(piece@.take(i as int));
        }
        value = value * 10 + d;
        i += 1;
    }
    assert(piece@.take(i as int) =~= piece@);
    if value > 255 {
        return None;
    }
    Some(value as u8)
}

/// A numeral of `n` digits denotes less than the `n`-th power of ten.
proof fn lemma_digits_bound(digits: Seq<char>)
    requires
        all_digits(digits),
    ensures
        digits.len() == 0 ==> digits_value(digits) == 0,
        digits.len() == 1 ==> digits_value(digits) < 10,
        digits.len() == 2 ==> digits_value(digits) < 100,
        digits.len() == 3 ==> digits_value(digits) < 1000,
    decreases digits.len(),
{
    if digits.len() > 0 {
        assert(is_digit(digits.last()));
        assert forall|j: int| 0 <= j < digits.drop_last().len() implies is_digit(
            #[trigger] digits.drop_last()[j],
        ) by {
            assert(digits.drop_last()[j] == digits[j]);
        }
        lemma_digits_bound(digits.drop_last());
    }
}

/// Reads a dotted address.
pub fn read_v4(text: &[char]) -> (r: Option<[u8; 4]>)
    ensures
        match r {
            Some(octets) => parse_v4(text@) == Some(octets@),
            None => parse_v4(text@) is None,
        },
{
    let pieces = split_at_each(text, '.');
    if pieces.len() != 4 {
        return None;
    }
    let ghost views = split(text@, '.');
    let mut octets = [0u8; 4];
    let mut i: usize = 0;
    while i < 4
        invariant
            i <= 4,
            pieces@.len() == 4,
            views == split(text@, '.'),
            slice_views(pieces@) == views,
            forall|j: int| 0 <= j < i ==> octet_value(#[trigger] views[j]) == Some(octets@[j]),
        decreases 4 - i,
    {
        assert(views[i as int] == pieces@[i as int]@);
        match read_octet(pieces[i]) {
            Some(octet) => {
                octets[i] = octet;
            },
            None => {
                return None;
            },
        }
        i += 1;
    }
    assert(octets@ =~= Seq::new(4, |i: int| octet_value(views[i])->Some_0));
    Some(octets)
}

/// A numeral of `n` hexadecimal digits denotes less than the `n`-th power of sixteen.
proof fn lemma_hex_bound(piece: Seq<char>)
    requires
        all_hex(piece),
    ensures
        piece.len() == 0 ==> hex_digits_value(piece) == 0,
        piece.len() == 1 ==> hex_digits_value(piece) < 16,
        piece.len() == 2 ==> hex_digits_value(piece) < 256,
        piece.len() == 3 ==> hex_digits_value(piece) < 4096,
        piece.len() == 4 ==> hex_digits_value(piece) < 65536,
    decreases piece.len(),
{
    if piece.len() > 0 {
        assert(hex_digit_value(piece.last()) is Some);
        assert forall|j: int| 0 <= j < piece.drop_last().len() implies hex_digit_value(
            #[trigger] piece.drop_last()[j],
        ) is Some by {
            assert(piece.drop_last()[j] == piece[j]);
        }
        lemma_hex_bound(piece.drop_last());
    }
}

/// Reads one hexadecimal digit.
fn read_hex_digit(c: char) -> (r: Option<u32>)
    ensures
        match r {
            Some(d) => hex_digit_value(c) == Some(d as nat) && d < 16,
            None => hex_digit_value(c) is None,
        },
{
    if '0' <= c && c <= '9' {
        Some((c as u32) - ('0' as u32))
    } else if 'a' <= c && c <= 'f' {
        Some((c as u32) - ('a' as u32) + 10)
    } else if 'A' <= c && c <= 'F' {
        Some((c as u32) - ('A' as u32) + 10)
    } else {
        None
    }
}

/// Reads one group of an IPv6 text.
pub fn read_group(piece: &[char]) -> (r: Option<u16>)
    ensures
        r == hex_value(piece@),
{
    if piece.len() < 1 || piece.len() > 4 {
        return None;
    }
    let mut value: u32 = 0;
    let mut i: usize = 0;
    while i < piece.len()
        invariant
            i <= piece@.len() <= 4,
            all_hex(piece@.take(i as int)),
            value == hex_digits_value(piece@.take(i as int)),
            value < 65536,
            i < 4 ==> value < 4096,
        decreases piece@.len() - i,
    {
        let c = piece[i];
        let d = match read_hex_digit(c) {
            Some(d) => d,
            None => {
                return None;
            },
        };
        proof {
            let longer = piece@.take(i + 1);
            assert(longer.drop_last() =~= piece@.take(i as int));
            assert(longer.last() == c);
            assert forall|j: int| 0 <= j < longer.len() implies hex_digit_value(
                #[trigger] longer[j],
            ) is Some by {
                if j < i {
                    assert(piece@.take(i as int)[j] == longer[j]);
                }
            }
            lemma_hex_bound(piece@.take(i as int));
            lemma_hex_bound(longer);
        }
        value = value * 16 + d;
        i += 1;
    }
    assert(piece@.take(i as int) =~= piece@);
    Some(value as u16)
}

/// Reads the groups that the first `count` pieces denote.
fn read_pieces(pieces: &Vec<&[char]>, count: usize) -> (r: Option<Vec<u16>>)
    requires
        count <= pieces@.len(),
    ensures
        match r {
            Some(groups) => groups_of(slice_views(pieces@).take(count as int)) == Some(groups@),
            None => groups_of(slice_views(pieces@).take(count as int)) is None,
        },
{
    let ghost views = slice_views(pieces@).take(count as int);
    let mut groups: Vec<u16> = Vec::new();
    let mut i: usize = 0;
    while i < count
        invariant
            i <= count <= pieces@.len(),
            views == slice_views(pieces@).take(count as int),
            groups@.len() == i,
            forall|j: int| 0 <= j < i ==> hex_value(#[trigger] views[j]) == Some(groups@[j]),
        decreases count - i,
    {
        assert(views[i as int] == pieces@[i as int]@);
        match read_group(pieces[i]) {
            Some(group) => {
                groups.push(group);
            },
            None => {
                return None;
            },
        }
        i += 1;
    }
    assert(groups@ =~= Seq::new(views.len(), |i: int| hex_value(views[i])->Some_0));
    Some(groups)
}

/// Reads the groups in front of a `::`.
fn read_head(text: &[char]) -> (r: Option<Vec<u16>>)
    ensures
        match r {
            Some(groups) => head_groups(text@) == Some(groups@),
            None => head_groups(text@) is None,
        },
{
    if text.len() == 0 {
        return Some(Vec::new());
    }
    let pieces = split_at_each(text, ':');
    assert(slice_views(pieces@).take(pieces@.len() as int) =~= slice_views(pieces@));
    read_pieces(&pieces, pieces.len())
}

/// Reads the groups behind a `::`, or of a text without one.
fn read_tail(text: &[char]) -> (r: Option<Vec<u16>>)
    ensures
        match r {
            Some(groups) => tail_groups(text@) == Some(groups@),
            None => tail_groups(text@) is None,
        },
{
    if text.len() == 0 {
        return Some(Vec::new());
    }
    let pieces = split_at_each(text, ':');
    let last = pieces.len() - 1;
    assert(slice_views(pieces@).last() == pieces@[last as int]@);
    assert(slice_views(pieces@).take(last as int) =~= slice_views(pieces@).drop_last());
    assert(slice_views(pieces@).take(pieces@.len() as int) =~= slice_views(pieces@));
    match read_v4(pieces[last]) {
        Some(octets) => match read_pieces(&pieces, last) {
            Some(groups) => {
                let mut groups = groups;
                groups.push(octets[0] as u16 * 256 + octets[1] as u16);
                groups.push(octets[2] as u16 * 256 + octets[3] as u16);
                assert(groups@ =~= groups_of(slice_views(pieces@).drop_last())->Some_0 + v4_groups(
                    octets@,
                ));
                Some(groups)
            },
            None => None,
        },
        None => read_pieces(&pieces, pieces.len()),
    }
}

/// The position of the first two colons that follow each other.
fn find_double_colon(text: &[char]) -> (r: Option<usize>)
    ensures
        match r {
            Some(i) => first_double_colon(text@, i as int),
            None => forall|i: int| !double_colon_at(text@, i),
        },
{
    let mut i: usize = 0;
    while i < text.len() && i + 1 < text.len()
        invariant
            forall|j: int| 0 <= j < i ==> !double_colon_at(text@, j),
        decreases text@.len() - i,
    {
        if text[i] == ':' && text[i + 1] == ':' {
            return Some(i);
        }
        i += 1;
    }
    None
}

/// Reads an IPv6 address.
pub fn read_v6(text: &[char]) -> (r: Option<[u16; 8]>)
    ensures
        match r {
            Some(groups) => parse_v6(text@) == Some(groups@),
            None => parse_v6(text@) is None,
        },
{
    match find_double_colon(text) {
        Some(at) => {
            proof {
                let i = choose|i: int| first_double_colon(text@, i);
                assert(double_colon_at(text@, at as int));
                assert(i == at);
            }
            let len = text.len();
            assert(at + 2 <= len);
            let head = match read_head(vstd::slice::slice_subrange(text, 0, at)) {
                Some(head) => head,
                None => {
                    return None;
                },
            };
            let tail = match read_tail(vstd::slice::slice_subrange(text, at + 2, len)) {
                Some(tail) => tail,
                None => {
                    return None;
                },
            };
            if head.len() > 7 || tail.len() > 7 - head.len() {
                return None;
            }
            let mut groups = [0u16; 8];
            let mut i: usize = 0;
            while i < head.len()
                invariant
                    i <= head@.len() <= 7,
                    forall|j: int| 0 <= j < i ==> groups@[j] == head@[j],
                    forall|j: int| i <= j < 8 ==> groups@[j] == 0,
                decreases head@.len() - i,
            {
                groups[i] = head[i];
                i += 1;
            }
            let skip = 8 - tail.len();
            let mut i: usize = 0;
            while i < tail.len()
                invariant
                    i <= tail@.len(),
                    head@.len() + tail@.len() <= 7,
                    skip == 8 - tail@.len(),
                    forall|j: int| 0 <= j < head@.len() ==> groups@[j] == head@[j],
                    forall|j: int| head@.len() <= j < skip ==> groups@[j] == 0,
                    forall|j: int| 0 <= j < i ==> groups@[skip + j] == tail@[j],
                decreases tail@.len() - i,
            {
                groups[skip + i] = tail[i];
                i += 1;
            }
            assert(groups@ =~= head@ + zero_groups(8 - head@.len() - tail@.len()) + tail@);
            Some(groups)
        },
        None => {
            let tail = match read_tail(text) {
                Some(tail) => tail,
                None => {
                    return None;
                },
            };
            if tail.len() != 8 {
                return None;
            }
            let groups = [
                tail[0],
                tail[1],
                tail[2],
                tail[3],
                tail[4],
                tail[5],
                tail[6],
                tail[7],
            ];
            assert(groups@ =~= tail@);
            Some(groups)
        },
    }
}

/// Reads an address: a dotted IPv4 address, else an IPv6 address.
pub fn read_ip(text: &[char]) -> (r: Option<IpAddr>)
    ensures
        match r {
            Some(ip) => parse_ip(text@) == Some(ip@),
            None => parse_ip(text@) is None,
        },
{
    match read_v4(text) {
        Some(octets) => Some(IpAddr::V4(octets)),
        None => match read_v6(text) {
            Some(groups) => Some(IpAddr::V6(groups)),
            None => None,
        },
    }
}

} // verus!
