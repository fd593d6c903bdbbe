//! Texts of addresses and endpoints are read back as the values they were
//! written from.

use vstd::prelude::*;
use crate::endpoint::{last_colon, parse, AddressView, EndpointError, EndpointView};
use crate::ip::{
    all_hex, double_colon_at, first_double_colon, groups_of, groups_text, head_groups, hex,
    hex_digit_char, hex_digit_value, hex_digits_value, hex_value, hexes, is_v4_mapped, join,
    decimals, longest_zero_run, mapped_octets, octet_value, parse_ip, parse_v4, parse_v6,
    tail_groups, v4_groups, v4_text, v6_text, zero_groups, zero_run, IpView,
};
use crate::text::{
    decimal, digit_char, index_of, is_digit, lemma_decimal_value, lemma_index_of, parse_u16, split,
};

verus! {

/// Whether no character of `piece` is `sep`.
pub open spec fn free_of(piece: Seq<char>, sep: char) -> bool {
    forall|i: int| 0 <= i < piece.len() ==> piece[i] != sep
}

/// Pieces without the separator, joined by it, are found again by cutting at it.
pub proof fn lemma_split_join(pieces: Seq<Seq<char>>, sep: char)
    requires
        pieces.len() >= 1,
        forall|i: int| 0 <= i < pieces.len() ==> free_of(#[trigger] pieces[i], sep),
    ensures
        split(join(pieces, sep), sep) == pieces,
    decreases pieces.len(),
{
    let text = join(pieces, sep);
    assert(free_of(pieces[0], sep));
    if pieces.len() == 1 {
        lemma_index_of(text, sep, text.len() as int);
        assert(split(text, sep) =~= pieces);
    } else {
        let rest = pieces.drop_first();
        let k = pieces[0].len() as int;
        assert(text == pieces[0] + seq![sep] + join(rest, sep));
        assert forall|j: int| 0 <= j < k implies text[j] != sep by {
            assert(text[j] == pieces[0][j]);
        }
        assert(text[k] == sep);
        lemma_index_of(text, sep, k);
        assert(text.take(k) =~= pieces[0]);
        assert(text.skip(k + 1) =~= join(rest, sep));
        assert forall|i: int| 0 <= i < rest.len() implies free_of(#[trigger] rest[i], sep) by {
            assert(rest[i] == pieces[i + 1]);
        }
        lemma_split_join(rest, sep);
        assert(split(text, sep) =~= pieces);
    }
}

/// In non-empty pieces without colons, joined by colons, no two colons
/// follow each other, and none stands first or last.
proof fn lemma_join_colons(pieces: Seq<Seq<char>>)
    requires
        pieces.len() >= 1,
        forall|i: int| 0 <= i < pieces.len() ==> free_of(#[trigger] pieces[i], ':'),
        forall|i: int| 0 <= i < pieces.len() ==> (#[trigger] pieces[i]).len() >= 1,
    ensures
        join(pieces, ':').len() >= 1,
        join(pieces, ':')[0] != ':',
        join(pieces, ':').last() != ':',
        forall|i: int| !double_colon_at(join(pieces, ':'), i),
    decreases pieces.len(),
{
    let text = join(pieces, ':');
    assert(free_of(pieces[0], ':'));
    assert(pieces[0].len() >= 1);
    if pieces.len() > 1 {
        let rest = pieces.drop_first();
        let k = pieces[0].len() as int;
        assert forall|i: int| 0 <= i < rest.len() implies free_of(#[trigger] rest[i], ':') by {
            assert(rest[i] == pieces[i + 1]);
        }
        assert forall|i: int| 0 <= i < rest.len() implies (#[trigger] rest[i]).len() >= 1 by {
            assert(rest[i] == pieces[i + 1]);
        }
        lemma_join_colons(rest);
        let later = join(rest, ':');
        assert(text == pieces[0] + seq![':'] + later);
        assert(text[0] == pieces[0][0]);
        assert(text.last() == later.last());
        assert forall|i: int| !double_colon_at(text, i) by {
            if double_colon_at(text, i) {
                if i + 1 < k {
                    assert(text[i] == pieces[0][i]);
                } else if i + 1 == k {
                    assert(text[i] == pieces[0][i]);
                } else if i == k {
                    assert(text[i + 1] == later[0]);
                } else {
                    assert(text[i] == later[i - k - 1]);
                    assert(text[i + 1] == later[i - k]);
                    assert(double_colon_at(later, i - k - 1));
                }
            }
        }
    }
}

/// The numeral of a byte has one to three digits, none of them a zero in
/// front of another, and denotes the byte.
pub proof fn lemma_octet_round_trip(octet: u8)
    ensures
        octet_value(decimal(octet as nat)) == Some(octet),
        free_of(decimal(octet as nat), '.'),
        free_of(decimal(octet as nat), ':'),
{
    let n = octet as nat;
    lemma_decimal_value(n);
    let d = decimal(n);
    if n < 10 {
        assert(d.len() == 1);
    } else if n < 100 {
        assert(decimal(n / 10).len() == 1);
        assert(d.len() == 2);
        assert(d[0] == decimal(n / 10)[0]);
        assert(d[0] == digit_char(n / 10));
    } else {
        assert(decimal(n / 100).len() == 1);
        assert(decimal(n / 10) == decimal(n / 100).push(digit_char((n / 10) % 10)));
        assert(d.len() == 3);
        assert(d[0] == decimal(n / 10)[0]);
        assert(d[0] == digit_char(n / 100));
    }
    assert forall|i: int| 0 <= i < d.len() implies d[i] != '.' && d[i] != ':' by {
        assert(is_digit(d[i]));
    }
}

/// The text of an IPv4 address is read back as the address.
pub proof fn lemma_v4_round_trip(octets: Seq<u8>)
    requires
        octets.len() == 4,
    ensures
        parse_v4(v4_text(octets)) == Some(octets),
        free_of(v4_text(octets), ':'),
        v4_text(octets).len() >= 1,
{
    let pieces = decimals(octets);
    assert forall|i: int| 0 <= i < pieces.len() implies free_of(#[trigger] pieces[i], '.') by {
        lemma_octet_round_trip(octets[i]);
    }
    lemma_split_join(pieces, '.');
    assert forall|i: int| 0 <= i < 4 implies octet_value(#[trigger] pieces[i]) == Some(
        octets[i],
    ) by {
        lemma_octet_round_trip(octets[i]);
    }
    assert(Seq::new(4, |i: int| octet_value(pieces[i])->Some_0) =~= octets);
    assert forall|i: int| 0 <= i < pieces.len() implies free_of(#[trigger] pieces[i], ':') by {
        lemma_octet_round_trip(octets[i]);
    }
    lemma_join_free(pieces, '.', ':');
    lemma_octet_round_trip(octets[0]);
    lemma_decimal_value(octets[0] as nat);
    lemma_join_len(pieces, '.');
}

/// Pieces joined are at least as long as the first of them.
proof fn lemma_join_len(pieces: Seq<Seq<char>>, sep: char)
    requires
        pieces.len() >= 1,
    ensures
        join(pieces, sep).len() >= pieces[0].len(),
{
}

/// Pieces without a character, joined by another separator, are without it.
proof fn lemma_join_free(pieces: Seq<Seq<char>>, sep: char, other: char)
    requires
        sep != other,
        forall|i: int| 0 <= i < pieces.len() ==> free_of(#[trigger] pieces[i], other),
    ensures
        free_of(join(pieces, sep), other),
    decreases pieces.len(),
{
    if pieces.len() == 0 {
    } else if pieces.len() == 1 {
        assert(free_of(pieces[0], other));
    } else {
        let rest = pieces.drop_first();
        assert forall|i: int| 0 <= i < rest.len() implies free_of(#[trigger] rest[i], other) by {
            assert(rest[i] == pieces[i + 1]);
        }
        lemma_join_free(rest, sep, other);
        assert(free_of(pieces[0], other));
        let text = join(pieces, sep);
        let k = pieces[0].len() as int;
        assert forall|i: int| 0 <= i < text.len() implies text[i] != other by {
            if i < k {
                assert(text[i] == pieces[0][i]);
            } else if i > k {
                assert(text[i] == join(rest, sep)[i - k - 1]);
            }
        }
    }
}

/// The numeral of a group is made of hexadecimal digits and denotes the group.
proof fn lemma_hex_value(n: nat)
    ensures
        hex(n).len() >= 1,
        all_hex(hex(n)),
        hex_digits_value(hex(n)) == n,
        n < 16 ==> hex(n).len() == 1,
        16 <= n < 256 ==> hex(n).len() == 2,
        256 <= n < 4096 ==> hex(n).len() == 3,
        4096 <= n < 65536 ==> hex(n).len() == 4,
        free_of(hex(n), ':'),
        free_of(hex(n), '.'),
    decreases n,
{
    let h = hex(n);
    if n < 16 {
        assert(h =~= seq![hex_digit_char(n)]);
        assert(hex_digit_value(hex_digit_char(n)) == Some(n));
        assert(h.drop_last() =~= Seq::<char>::empty());
        assert(hex_digits_value(h.drop_last()) == 0);
    } else {
        lemma_hex_value(n / 16);
        let d = hex(n / 16);
        assert(hex_digit_value(hex_digit_char(n % 16)) == Some(n % 16));
        assert(h.drop_last() =~= d);
        assert(h.last() == hex_digit_char(n % 16));
        assert forall|i: int| 0 <= i < h.len() implies hex_digit_value(#[trigger] h[i]) is Some by {
            if i < d.len() {
                assert(h[i] == d[i]);
            }
        }
        assert forall|i: int| 0 <= i < h.len() implies h[i] != ':' && h[i] != '.' by {
            if i < d.len() {
                assert(h[i] == d[i]);
            }
        }
    }
}

/// The numeral of a group is read back as the group.
pub proof fn lemma_group_round_trip(group: u16)
    ensures
        hex_value(hex(group as nat)) == Some(group),
        parse_v4(hex(group as nat)) is None,
{
    lemma_hex_value(group as nat);
    let h = hex(group as nat);
    lemma_index_of(h, '.', h.len() as int);
    assert(split(h, '.') =~= seq![h]);
}

/// The numerals of groups, joined by colons, are read back as the groups,
/// in front of a `::` and behind it.
pub proof fn lemma_groups_round_trip(groups: Seq<u16>)
    ensures
        head_groups(groups_text(groups)) == Some(groups),
        tail_groups(groups_text(groups)) == Some(groups),
        forall|i: int| !double_colon_at(groups_text(groups), i),
        groups.len() >= 1 ==> groups_text(groups).len() >= 1 && groups_text(groups)[0] != ':'
            && groups_text(groups).last() != ':',
        groups.len() == 0 ==> groups_text(groups).len() == 0,
{
    let pieces = hexes(groups);
    let text = groups_text(groups);
    if groups.len() == 0 {
        assert(groups =~= Seq::<u16>::empty());
    } else {
        assert forall|i: int| 0 <= i < pieces.len() implies free_of(#[trigger] pieces[i], ':')
            && pieces[i].len() >= 1 && hex_value(pieces[i]) == Some(groups[i]) by {
            lemma_hex_value(groups[i] as nat);
            lemma_group_round_trip(groups[i]);
        }
        lemma_split_join(pieces, ':');
        lemma_join_colons(pieces);
        assert(Seq::new(pieces.len(), |i: int| hex_value(pieces[i])->Some_0) =~= groups);
        assert(groups_of(pieces) == Some(groups));
        lemma_group_round_trip(groups.last());
        assert(pieces.last() == hex(groups.last() as nat));
    }
}

/// The text of an IPv6 address holds a colon.
pub open spec fn has_colon(text: Seq<char>) -> bool {
    exists|i: int| 0 <= i < text.len() && text[i] == ':'
}

/// Whether `c` stands at position `j` of piece `p`.
spec fn piece_holds(pieces: Seq<Seq<char>>, p: int, j: int, c: char) -> bool {
    0 <= p < pieces.len() && 0 <= j < pieces[p].len() && pieces[p][j] == c
}

/// A text with a colon is no dotted address.
proof fn lemma_colon_is_no_v4(text: Seq<char>)
    requires
        has_colon(text),
    ensures
        parse_v4(text) is None,
{
    let at = choose|i: int| 0 <= i < text.len() && text[i] == ':';
    lemma_piece_with(text, '.', at);
    let pieces = split(text, '.');
    let (p, j) = choose|p: int, j: int| piece_holds(pieces, p, j, ':');
    assert(!is_digit(pieces[p][j]));
    assert(octet_value(pieces[p]) is None);
}

/// Every character of a text that is not the separator stands in one of its pieces.
proof fn lemma_piece_with(text: Seq<char>, sep: char, at: int)
    requires
        0 <= at < text.len(),
        text[at] != sep,
    ensures
        exists|p: int, j: int| piece_holds(split(text, sep), p, j, text[at]),
    decreases text.len(),
{
    let i = index_of(text, sep);
    lemma_index_bounds(text, sep);
    let pieces = split(text, sep);
    if 0 <= i < text.len() {
        if at < i {
            assert(pieces[0] == text.take(i));
            assert(piece_holds(pieces, 0, at, text[at]));
        } else {
            let rest = text.skip(i + 1);
            assert(rest[at - i - 1] == text[at]);
            lemma_piece_with(rest, sep, at - i - 1);
            let later = split(rest, sep);
            let (p, j) = choose|p: int, j: int| piece_holds(later, p, j, text[at]);
            assert(pieces[p + 1] == later[p]);
            assert(piece_holds(pieces, p + 1, j, text[at]));
        }
    } else {
        assert(pieces[0] == text);
        assert(piece_holds(pieces, 0, at, text[at]));
    }
}

/// `index_of` gives a position of the separator or the length of the text.
proof fn lemma_index_bounds(text: Seq<char>, sep: char)
    ensures
        0 <= index_of(text, sep) <= text.len(),
        index_of(text, sep) < text.len() ==> text[index_of(text, sep)] == sep,
    decreases text.len(),
{
    if text.len() > 0 && text[0] != sep {
        lemma_index_bounds(text.drop_first(), sep);
    }
}

/// The text `ffff` is the numeral of the group that marks a mapped address.
proof fn lemma_ffff()
    ensures
        hex(0xffffnat) == seq!['f', 'f', 'f', 'f'],
        hex_value(hex(0xffffnat)) == Some(0xffffu16),
        free_of(hex(0xffffnat), ':'),
{
    assert(hex(0xfnat) =~= seq!['f']);
    assert(hex(0xffnat) =~= hex(0xfnat).push('f'));
    assert(hex(0xfffnat) =~= hex(0xffnat).push('f'));
    assert(hex(0xffffnat) =~= hex(0xfffnat).push('f'));
    lemma_group_round_trip(0xffffu16);
    lemma_hex_value(0xffffnat);
}

/// What stands behind the `::` of a mapped address is read as three groups.
proof fn lemma_mapped_tail(octets: Seq<u8>)
    requires
        octets.len() == 4,
    ensures
        tail_groups(hex(0xffffnat) + seq![':'] + v4_text(octets)) == Some(
            seq![0xffffu16] + v4_groups(octets),
        ),
{
    let dotted = v4_text(octets);
    let ffff = hex(0xffffnat);
    lemma_v4_round_trip(octets);
    lemma_ffff();
    let pieces = seq![ffff, dotted];
    let tail = ffff + seq![':'] + dotted;
    assert(pieces.drop_first() =~= seq![dotted]);
    assert(join(pieces.drop_first(), ':') == dotted);
    assert(join(pieces, ':') == tail);
    assert forall|k: int| 0 <= k < pieces.len() implies free_of(#[trigger] pieces[k], ':') by {}
    lemma_split_join(pieces, ':');
    assert(split(tail, ':') == pieces);
    assert(pieces.last() == dotted);
    assert(pieces.drop_last() =~= seq![ffff]);
    assert(Seq::new(1, |k: int| hex_value(seq![ffff][k])->Some_0) =~= seq![0xffffu16]);
    assert(groups_of(seq![ffff]) == Some(seq![0xffffu16]));
}

/// The text of a mapped address is read back as the address.
proof fn lemma_v6_mapped_round_trip(groups: Seq<u16>)
    requires
        groups.len() == 8,
        is_v4_mapped(groups),
    ensures
        parse_v6("::ffff:"@ + v4_text(mapped_octets(groups))) == Some(groups),
        has_colon("::ffff:"@ + v4_text(mapped_octets(groups))),
{
    reveal_strlit("::ffff:");
    let octets = mapped_octets(groups);
    let dotted = v4_text(octets);
    let text = "::ffff:"@ + dotted;
    lemma_ffff();
    lemma_mapped_tail(octets);
    assert(text[0] == ':');
    assert(text[1] == ':');
    assert(double_colon_at(text, 0));
    assert(first_double_colon(text, 0));
    let i = choose|i: int| first_double_colon(text, i);
    assert(i == 0);
    assert(text.take(0) =~= Seq::<char>::empty());
    assert(text.skip(2) =~= hex(0xffffnat) + seq![':'] + dotted);
    let read = seq![0xffffu16] + v4_groups(octets);
    assert(read.len() == 3);
    assert(zero_groups(5) + read =~= groups);
    assert(Seq::<u16>::empty() + zero_groups(8 - 0 - 3) + read =~= groups);
}

/// The text of an address with `::` for a run of zero groups is read back
/// as the address.
proof fn lemma_v6_short_round_trip(groups: Seq<u16>, start: int, len: int)
    requires
        groups.len() == 8,
        zero_run(groups, start, len),
        len > 1,
    ensures
        parse_v6(
            groups_text(groups.subrange(0, start)) + "::"@ + groups_text(
                groups.subrange(start + len, 8),
            ),
        ) == Some(groups),
        has_colon(
            groups_text(groups.subrange(0, start)) + "::"@ + groups_text(
                groups.subrange(start + len, 8),
            ),
        ),
{
    let head = groups.subrange(0, start);
    let tail = groups.subrange(start + len, 8);
    let head_text = groups_text(head);
    let tail_text = groups_text(tail);
    lemma_groups_round_trip(head);
    lemma_groups_round_trip(tail);
    reveal_strlit("::");
    let text = head_text + "::"@ + tail_text;
    let at = head_text.len() as int;
    assert(text[at] == ':');
    assert(text[at + 1] == ':');
    assert(double_colon_at(text, at));
    assert forall|j: int| 0 <= j < at implies !double_colon_at(text, j) by {
        if double_colon_at(text, j) {
            if j + 1 < at {
                assert(text[j] == head_text[j]);
                assert(text[j + 1] == head_text[j + 1]);
                assert(double_colon_at(head_text, j));
            } else {
                assert(text[j] == head_text.last());
            }
        }
    }
    assert(first_double_colon(text, at));
    let i = choose|i: int| first_double_colon(text, i);
    assert(i == at);
    assert(text.take(at) =~= head_text);
    assert(text.skip(at + 2) =~= tail_text);
    assert(head.len() + tail.len() == 8 - len);
    assert(head + zero_groups(8 - head.len() - tail.len()) + tail =~= groups);
}

/// The text of an address without `::` is read back as the address.
proof fn lemma_v6_full_round_trip(groups: Seq<u16>)
    requires
        groups.len() == 8,
    ensures
        parse_v6(groups_text(groups)) == Some(groups),
        has_colon(groups_text(groups)),
{
    lemma_groups_round_trip(groups);
    let text = groups_text(groups);
    let pieces = hexes(groups);
    // Eight groups have seven colons between them
    assert(text == pieces[0] + seq![':'] + join(pieces.drop_first(), ':'));
    assert(text[pieces[0].len() as int] == ':');
}

/// The text of an IPv6 address is read back as the address.
pub proof fn lemma_v6_round_trip(groups: Seq<u16>)
    requires
        groups.len() == 8,
    ensures
        parse_v6(v6_text(groups)) == Some(groups),
        has_colon(v6_text(groups)),
{
    if is_v4_mapped(groups) {
        lemma_v6_mapped_round_trip(groups);
    } else {
        lemma_run_exists(groups);
        let run = choose|run: (int, int)| longest_zero_run(groups, run.0, run.1);
        if run.1 > 1 {
            lemma_v6_short_round_trip(groups, run.0, run.1);
        } else {
            lemma_v6_full_round_trip(groups);
        }
    }
}

/// Every sequence of groups has a first longest run of zero groups.
proof fn lemma_run_exists(groups: Seq<u16>)
    ensures
        exists|run: (int, int)| longest_zero_run(groups, run.0, run.1),
{
    lemma_run_within(groups, groups.len() as int);
    let run = choose|run: (int, int)| best_within(groups, groups.len() as int, run.0, run.1);
    assert forall|s: int, l: int| #[trigger] zero_run(groups, s, l) implies l < run.1 || (l
        == run.1 && run.0 <= s) by {
        assert(s < groups.len() || l == 0);
        if s >= groups.len() {
            assert(zero_run(groups, 0, 0));
        }
    }
    assert(longest_zero_run(groups, run.0, run.1));
}

/// Whether the run is the first longest among those that start below `bound`.
spec fn best_within(groups: Seq<u16>, bound: int, start: int, len: int) -> bool {
    &&& zero_run(groups, start, len)
    &&& start <= bound
    &&& forall|s: int, l: int|
        s < bound && #[trigger] zero_run(groups, s, l) ==> l < len || (l == len && start <= s)
}

/// The longest run of zero groups that starts at `start`.
spec fn run_from(groups: Seq<u16>, start: int, len: int) -> int
    decreases groups.len() - start - len,
{
    if 0 <= start && 0 <= len && start + len < groups.len() && groups[start + len] == 0 {
        run_from(groups, start, len + 1)
    } else {
        len
    }
}

proof fn lemma_run_from(groups: Seq<u16>, start: int, len: int)
    requires
        zero_run(groups, start, len),
    ensures
        zero_run(groups, start, run_from(groups, start, len)),
        forall|l: int| #[trigger] zero_run(groups, start, l) ==> l <= run_from(groups, start, len),
    decreases groups.len() - start - len,
{
    if start + len < groups.len() && groups[start + len] == 0 {
        lemma_run_from(groups, start, len + 1);
    } else {
        assert forall|l: int| #[trigger] zero_run(groups, start, l) implies l <= len by {
            if l > len {
                assert(groups[start + len] == 0);
            }
        }
    }
}

proof fn lemma_run_within(groups: Seq<u16>, bound: int)
    requires
        0 <= bound <= groups.len(),
    ensures
        exists|run: (int, int)| best_within(groups, bound, run.0, run.1),
    decreases bound,
{
    if bound == 0 {
        assert(zero_run(groups, 0, 0));
        assert(best_within(groups, 0, (0int, 0int).0, (0int, 0int).1));
    } else {
        lemma_run_within(groups, bound - 1);
        let run = choose|run: (int, int)| best_within(groups, bound - 1, run.0, run.1);
        assert(zero_run(groups, bound - 1, 0));
        lemma_run_from(groups, bound - 1, 0);
        let len = run_from(groups, bound - 1, 0);
        if len > run.1 {
            assert(best_within(groups, bound, (bound - 1, len).0, (bound - 1, len).1));
        } else {
            assert(best_within(groups, bound, run.0, run.1));
        }
    }
}

/// The canonical text of an address is read back as the address.
pub proof fn lemma_ip_round_trip(ip: IpView)
    requires
        ip.wf(),
    ensures
        parse_ip(ip.text()) == Some(ip),
{
    match ip {
        IpView::V4(octets) => {
            lemma_v4_round_trip(octets);
        },
        IpView::V6(groups) => {
            lemma_v6_round_trip(groups);
            lemma_colon_is_no_v4(v6_text(groups));
        },
    }
}

/// The text of an endpoint is read back as the endpoint, provided that its
/// host name does not start with a bar.
pub proof fn lemma_endpoint_round_trip(endpoint: EndpointView)
    requires
        endpoint.round_trips(),
    ensures
        parse(endpoint.text()) == Ok::<EndpointView, EndpointError>(endpoint),
{
    let text = endpoint.text();
    let port = decimal(endpoint.port as nat);
    lemma_decimal_value(endpoint.port as nat);
    let address = match endpoint.address {
        AddressView::Name(name) => name,
        AddressView::Ip(ip) => seq!['|'] + ip.text(),
    };
    assert(text =~= address + seq![':'] + port);
    let at = address.len() as int;
    assert forall|j: int| at < j < text.len() implies text[j] != ':' by {
        assert(text[j] == port[j - at - 1]);
        assert(is_digit(port[j - at - 1]));
    }
    assert(last_colon(text, at));
    let i = choose|i: int| last_colon(text, i);
    assert(i == at);
    assert(text.take(at) =~= address);
    assert(text.skip(at + 1) =~= port);
    assert(is_digit(port[0]));
    assert(parse_u16(port) == Some(endpoint.port));
    match endpoint.address {
        AddressView::Name(name) => {},
        AddressView::Ip(ip) => {
            assert(address.skip(1) =~= ip.text());
            lemma_ip_round_trip(ip);
        },
    }
}

} // verus!
