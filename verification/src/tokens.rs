//! Sets of opaque tokens and their compact binary form.
//!
//! A set is written as one of three forms, told apart by the first byte: a
//! single token; tokens of one length, concatenated; or tokens of mixed
//! lengths, each behind its length.

use vstd::prelude::*;
use vstd::string::*;
use crate::base64;
use crate::base64::{base64_nopad, base64_nopad_decoded, max_decoded};
use crate::text::{decimal, push_decimal};

verus! {

/// The most tokens that a set can hold and still be written.
pub const MAX_TOKENS: usize = 127;

/// The longest token that can be written.
pub const MAX_TOKEN_LEN: usize = 255;

/// Whether `a` and `b` hold the same bytes at every position below `k`.
pub open spec fn agree_below(a: Seq<u8>, b: Seq<u8>, k: int) -> bool {
    &&& 0 <= k <= a.len()
    &&& k <= b.len()
    &&& forall|j: int| 0 <= j < k ==> a[j] == b[j]
}

/// Whether `a` comes before `b` in the order of a dictionary: at the first
/// position where they differ `a` holds the smaller byte, or `a` ends there.
pub open spec fn precedes(a: Seq<u8>, b: Seq<u8>) -> bool {
    exists|k: int| #[trigger]
        agree_below(a, b, k) && k < b.len() && (k == a.len() || a[k] < b[k])
}

/// Whether each token comes before the next one.
pub open spec fn ascending(tokens: Seq<Seq<u8>>) -> bool {
    forall|i: int, j: int| 0 <= i < j < tokens.len() ==> precedes(#[trigger] tokens[i], #[trigger] tokens[j])
}

/// No token comes before itself.
pub proof fn lemma_precedes_irreflexive(a: Seq<u8>)
    ensures
        !precedes(a, a),
{
}

/// The order is transitive.
pub proof fn lemma_precedes_transitive(a: Seq<u8>, b: Seq<u8>, c: Seq<u8>)
    requires
        precedes(a, b),
        precedes(b, c),
    ensures
        precedes(a, c),
{
    let k1 = choose|k: int| #[trigger]
        agree_below(a, b, k) && k < b.len() && (k == a.len() || a[k] < b[k]);
    let k2 = choose|k: int| #[trigger]
        agree_below(b, c, k) && k < c.len() && (k == b.len() || b[k] < c[k]);
    let k = if k1 <= k2 {
        k1
    } else {
        k2
    };
    assert(agree_below(a, c, k));
}

/// A set has one ascending order only: two ascending sequences of the same
/// tokens are the same sequence.
pub proof fn lemma_ascending_unique(a: Seq<Seq<u8>>, b: Seq<Seq<u8>>)
    requires
        ascending(a),
        ascending(b),
        a.to_set() == b.to_set(),
    ensures
        a == b,
    decreases a.len(),
{
    if a.len() == 0 {
        if b.len() > 0 {
            assert(b.to_set().contains(b[0]));
            assert(a.to_set().contains(b[0]));
        }
        assert(a =~= b);
    } else {
        assert(a.to_set().contains(a[0]));
        assert(b.to_set().contains(a[0]));
        let j = choose|j: int| 0 <= j < b.len() && b[j] == a[0];
        assert(b.to_set().contains(b[0]));
        assert(a.to_set().contains(b[0]));
        let i = choose|i: int| 0 <= i < a.len() && a[i] == b[0];
        if j > 0 {
            // Then the first of `b` comes before the first of `a`, and is among `a`
            assert(precedes(b[0], b[j]));
            if i > 0 {
                assert(precedes(a[0], a[i]));
                lemma_precedes_transitive(a[0], b[0], a[0]);
            }
            lemma_precedes_irreflexive(a[0]);
        }
        let at = a.drop_first();
        let bt = b.drop_first();
        assert(ascending(at)) by {
            assert forall|x: int, y: int| 0 <= x < y < at.len() implies precedes(
                #[trigger] at[x],
                #[trigger] at[y],
            ) by {
                assert(precedes(a[x + 1], a[y + 1]));
            }
        }
        assert(ascending(bt)) by {
            assert forall|x: int, y: int| 0 <= x < y < bt.len() implies precedes(
                #[trigger] bt[x],
                #[trigger] bt[y],
            ) by {
                assert(precedes(b[x + 1], b[y + 1]));
            }
        }
        assert forall|t: Seq<u8>| at.to_set().contains(t) <==> bt.to_set().contains(t) by {
            if at.contains(t) {
                let x = choose|x: int| 0 <= x < at.len() && at[x] == t;
                assert(precedes(a[0], a[x + 1]));
                lemma_precedes_irreflexive(t);
                assert(a.to_set().contains(a[x + 1]));
                assert(b.to_set().contains(t));
                let y = choose|y: int| 0 <= y < b.len() && b[y] == t;
                assert(y > 0);
                assert(bt[y - 1] == t);
            }
            if bt.contains(t) {
                let y = choose|y: int| 0 <= y < bt.len() && bt[y] == t;
                assert(precedes(b[0], b[y + 1]));
                lemma_precedes_irreflexive(t);
                assert(b.to_set().contains(b[y + 1]));
                assert(a.to_set().contains(t));
                let x = choose|x: int| 0 <= x < a.len() && a[x] == t;
                assert(x > 0);
                assert(at[x - 1] == t);
            }
        }
        assert(at.to_set() =~= bt.to_set());
        lemma_ascending_unique(at, bt);
        assert(a =~= seq![a[0]] + at);
        assert(b =~= seq![b[0]] + bt);
    }
}

/// How two tokens stand to each other.
#[derive(Debug, Clone, Copy, PartialEq, Eq)]
pub enum Order {
    Before,
    Same,
    After,
}

/// Tells how `a` stands to `b` in the order of a dictionary.
pub fn order_of(a: &[u8], b: &[u8]) -> (r: Order)
    ensures
        r == Order::Before <==> precedes(a@, b@),
        r == Order::Same <==> a@ == b@,
        r == Order::After <==> precedes(b@, a@),
{
    let mut k: usize = 0;
    while k < a.len() && k < b.len()
        invariant
            agree_below(a@, b@, k as int),
        decreases a@.len() - k,
    {
        if a[k] < b[k] {
            proof {
                lemma_decided(a@, b@, k as int);
            }
            return Order::Before;
        }
        if a[k] > b[k] {
            assert(agree_below(b@, a@, k as int));
            proof {
                lemma_decided(b@, a@, k as int);
            }
            return Order::After;
        }
        k += 1;
    }
    if k < b.len() {
        proof {
            lemma_decided(a@, b@, k as int);
        }
        Order::Before
    } else if k < a.len() {
        assert(agree_below(b@, a@, k as int));
        proof {
            lemma_decided(b@, a@, k as int);
        }
        Order::After
    } else {
        assert(a@ =~= b@);
        proof {
            lemma_precedes_irreflexive(a@);
        }
        Order::Same
    }
}

/// Two tokens of which the first wins at position `k` are in order, differ,
/// and are not in the opposite order.
proof fn lemma_decided(a: Seq<u8>, b: Seq<u8>, k: int)
    requires
        agree_below(a, b, k),
        k < b.len(),
        k == a.len() || a[k] < b[k],
    ensures
        precedes(a, b),
        a != b,
        !precedes(b, a),
{
    if precedes(b, a) {
        lemma_precedes_transitive(a, b, a);
        lemma_precedes_irreflexive(a);
    }
}

/// A set of opaque tokens, held in ascending order.
#[derive(Debug, PartialEq, Eq)]
pub struct TokenSet {
    tokens: Vec<Vec<u8>>,
}

impl TokenSet {
    /// The tokens of the set in ascending order.
    pub closed spec fn ordered(&self) -> Seq<Seq<u8>> {
        Seq::new(self.tokens@.len(), |i: int| self.tokens@[i]@)
    }

    /// Every set holds its tokens in ascending order, each of them once.
    #[verifier::type_invariant]
    pub open spec fn inv(self) -> bool {
        ascending(self.ordered())
    }

    /// The set of tokens.
    pub open spec fn view(&self) -> Set<Seq<u8>> {
        self.ordered().to_set()
    }

    /// The empty set.
    pub fn new() -> (r: Self)
        ensures
            r.ordered() == Seq::<Seq<u8>>::empty(),
            r@ == Set::<Seq<u8>>::empty(),
    {
        let r = TokenSet { tokens: Vec::new() };
        assert(r.ordered() =~= Seq::<Seq<u8>>::empty());
        assert(r@ =~= Set::<Seq<u8>>::empty());
        r
    }

    /// The number of tokens in the set.
    pub fn len(&self) -> (r: usize)
        ensures
            r == self.ordered().len(),
            ascending(self.ordered()),
    {
        proof {
            use_type_invariant(self);
        }
        self.tokens.len()
    }

    /// Whether the set holds no token.
    pub fn is_empty(&self) -> (r: bool)
        ensures
            r == (self.ordered().len() == 0),
    {
        self.tokens.len() == 0
    }

    /// The token at position `index` of the ascending order.
    pub fn get(&self, index: usize) -> (r: &[u8])
        requires
            index < self.ordered().len(),
        ensures
            r@ == self.ordered()[index as int],
    {
        self.tokens[index].as_slice()
    }

    /// Whether `token` is in the set.
    pub fn contains(&self, token: &[u8]) -> (r: bool)
        ensures
            r == self@.contains(token@),
    {
        let mut i: usize = 0;
        while i < self.tokens.len()
            invariant
                i <= self.tokens@.len(),
                forall|j: int| 0 <= j < i ==> self.ordered()[j] != token@,
            decreases self.tokens@.len() - i,
        {
            if let Order::Same = order_of(self.tokens[i].as_slice(), token) {
                assert(self.ordered()[i as int] == token@);
                return true;
            }
            i += 1;
        }
        false
    }

    /// The position at which `token` stands, or would stand, in the
    /// ascending order, and whether it stands there.
    fn position(&self, token: &[u8]) -> (r: (usize, bool))
        ensures
            r.0 <= self.ordered().len(),
            forall|j: int| 0 <= j < r.0 ==> precedes(self.ordered()[j], token@),
            r.1 ==> r.0 < self.ordered().len() && self.ordered()[r.0 as int] == token@,
            !r.1 && r.0 < self.ordered().len() ==> precedes(token@, self.ordered()[r.0 as int]),
    {
        let mut i: usize = 0;
        while i < self.tokens.len()
            invariant
                i <= self.tokens@.len(),
                forall|j: int| 0 <= j < i ==> precedes(self.ordered()[j], token@),
            decreases self.tokens@.len() - i,
        {
            match order_of(self.tokens[i].as_slice(), token) {
                Order::Before => {},
                Order::Same => {
                    assert(self.ordered()[i as int] == token@);
                    return (i, true);
                },
                Order::After => {
                    assert(self.ordered()[i as int] == self.tokens@[i as int]@);
                    return (i, false);
                },
            }
            i += 1;
        }
        (i, false)
    }

    /// Adds `token` to the set; tells whether it was new.
    pub fn insert(&mut self, token: Vec<u8>) -> (r: bool)
        ensures
            final(self)@ == old(self)@.insert(token@),
            r == !old(self)@.contains(token@),
            r ==> final(self).ordered().len() == old(self).ordered().len() + 1,
            !r ==> final(self).ordered() == old(self).ordered(),
    {
        proof {
            use_type_invariant(&*self);
        }
        let (i, found) = self.position(token.as_slice());
        if found {
            assert(self@ =~= self@.insert(token@));
            return false;
        }
        let ghost before = self.ordered();
        let ghost added = token@;
        proof {
            assert forall|j: int| i <= j < before.len() implies precedes(added, before[j]) by {
                if j > i {
                    lemma_precedes_transitive(added, before[i as int], before[j]);
                }
            }
            assert forall|j: int| 0 <= j < before.len() implies before[j] != added by {
                lemma_precedes_irreflexive(added);
            }
        }
        let mut tokens = Vec::new();
        core::mem::swap(&mut self.tokens, &mut tokens);
        tokens.insert(i, token);
        proof {
            let after = Seq::new(tokens@.len(), |k: int| tokens@[k]@);
            assert(after =~= before.insert(i as int, added));
            assert forall|x: int, y: int| 0 <= x < y < after.len() implies precedes(
                after[x],
                after[y],
            ) by {
                let px = if x < i { x } else { x - 1 };
                let py = if y < i { y } else { y - 1 };
                if x != i && y != i {
                    assert(precedes(before[px], before[py]));
                }
            }
            lemma_insert_to_set(before, i as int, added);
        }
        self.tokens = tokens;
        true
    }

    /// The set of the given tokens; a token given twice is held once.
    pub fn from_tokens(tokens: Vec<Vec<u8>>) -> (r: Self)
        ensures
            r@ == Seq::new(tokens@.len(), |i: int| tokens@[i]@).to_set(),
    {
        let ghost given = Seq::new(tokens@.len(), |i: int| tokens@[i]@);
        let mut set = TokenSet::new();
        let mut tokens = tokens;
        let ghost mut taken: int = given.len() as int;
        while tokens.len() > 0
            invariant
                0 <= taken <= given.len(),
                tokens@.len() == taken,
                forall|j: int| 0 <= j < taken ==> tokens@[j]@ == given[j],
                set@ == given.subrange(taken, given.len() as int).to_set(),
            decreases tokens@.len(),
        {
            let token = tokens.pop().unwrap();
            proof {
                taken = taken - 1;
                let tail = given.subrange(taken + 1, given.len() as int);
                let longer = given.subrange(taken, given.len() as int);
                assert(longer =~= tail.insert(0, given[taken]));
                lemma_insert_to_set(tail, 0, given[taken]);
            }
            set.insert(token);
        }
        assert(given.subrange(0, given.len() as int) =~= given);
        set
    }
}

/// Appends `bytes` to `out`.
pub fn append_bytes(out: &mut Vec<u8>, bytes: &[u8])
    ensures
        final(out)@ == old(out)@ + bytes@,
{
    out.extend_from_slice(bytes);
    assert(out@ =~= old(out)@ + bytes@);
}

impl TokenSet {
    /// Whether the set can be written: at most 127 tokens, none longer than 255 bytes.
    pub fn is_encodable(&self) -> (r: bool)
        ensures
            r == encodable(self.ordered()),
    {
        if self.tokens.len() > MAX_TOKENS {
            return false;
        }
        let mut i: usize = 0;
        while i < self.tokens.len()
            invariant
                i <= self.tokens@.len(),
                self.tokens@.len() <= MAX_TOKENS,
                forall|j: int| 0 <= j < i ==> (#[trigger] self.ordered()[j]).len() <= MAX_TOKEN_LEN,
            decreases self.tokens@.len() - i,
        {
            if self.tokens[i].len() > MAX_TOKEN_LEN {
                assert(self.ordered()[i as int].len() > MAX_TOKEN_LEN);
                return false;
            }
            i += 1;
        }
        true
    }

    /// Whether all tokens have the length of the first.
    fn has_same_length(&self) -> (r: bool)
        ensures
            r == same_length(self.ordered()),
    {
        let mut i: usize = 1;
        while i < self.tokens.len()
            invariant
                1 <= i,
                forall|j: int|
                    0 <= j < i && j < self.tokens@.len() ==> (#[trigger] self.ordered()[j]).len()
                        == self.ordered()[0].len(),
            decreases self.tokens@.len() - i,
        {
            if self.tokens[i].len() != self.tokens[0].len() {
                assert(self.ordered()[i as int].len() != self.ordered()[0].len());
                return false;
            }
            i += 1;
        }
        true
    }

    /// The binary form of the set, its tokens in ascending order.
    pub fn encode_blob(&self) -> (r: Vec<u8>)
        requires
            encodable(self.ordered()),
        ensures
            r@ == blob(self.ordered()),
    {
        let ghost tokens = self.ordered();
        let count = self.tokens.len();
        let mut out: Vec<u8> = Vec::new();
        if count == 0 {
            return out;
        }
        if count == 1 {
            out.push(1);
            append_bytes(&mut out, self.tokens[0].as_slice());
            assert(tokens[0] == self.tokens@[0]@);
            return out;
        }
        // Tokens of one length need no length in front of each
        let len = self.tokens[0].len();
        assert(tokens[0] == self.tokens@[0]@);
        let len_prefix = !(self.has_same_length() && len <= 127);
        if len_prefix {
            out.push(count as u8);
        } else {
            out.push(0x80 + len as u8);
        }
        let ghost head = out@;
        let mut i: usize = 0;
        assert(tokens.skip(0) =~= tokens);
        while i < count
            invariant
                i <= count,
                count == self.tokens@.len(),
                tokens == self.ordered(),
                encodable(tokens),
                len_prefix ==> out@ + concat_prefixed(tokens.skip(i as int)) == head
                    + concat_prefixed(tokens),
                !len_prefix ==> out@ + concat(tokens.skip(i as int)) == head + concat(tokens),
            decreases count - i,
        {
            let ghost before = out@;
            let token = self.tokens[i].as_slice();
            proof {
                let rest = tokens.skip(i as int);
                assert(rest[0] == token@);
                assert(rest.drop_first() =~= tokens.skip(i + 1));
                assert(tokens[i as int].len() <= MAX_TOKEN_LEN);
            }
            if len_prefix {
                out.push(token.len() as u8);
            }
            append_bytes(&mut out, token);
            proof {
                let rest = tokens.skip(i as int);
                if len_prefix {
                    assert(out@ + concat_prefixed(tokens.skip(i + 1)) =~= before + concat_prefixed(
                        rest,
                    ));
                } else {
                    assert(out@ + concat(tokens.skip(i + 1)) =~= before + concat(rest));
                }
            }
            i += 1;
        }
        proof {
            assert(tokens.skip(count as int) =~= Seq::<Seq<u8>>::empty());
            if len_prefix {
                assert(out@ =~= out@ + concat_prefixed(tokens.skip(count as int)));
            } else {
                assert(out@ =~= out@ + concat(tokens.skip(count as int)));
            }
        }
        out
    }

    /// The set that a binary form stands for.
    pub fn decode_blob(bytes: &[u8]) -> (r: Result<Self, TokenSetError>)
        ensures
            match r {
                Ok(set) => decoded(bytes@) == Ok::<Set<Seq<u8>>, TokenSetError>(set@),
                Err(e) => decoded(bytes@) == Err::<Set<Seq<u8>>, TokenSetError>(e),
            },
    {
        let mut set = TokenSet::new();
        if bytes.len() == 0 {
            return Ok(set);
        }
        let first = bytes[0];
        if first >= 0x80 {
            let stride = (first - 0x80) as usize;
            if stride == 0 {
                return Err(TokenSetError::ZeroStride);
            }
            let ghost all = bytes@.skip(1);
            let mut at: usize = 1;
            assert(bytes@.skip(1) =~= all);
            assert(set@.union(decode_uniform(all, stride as nat)) =~= decode_uniform(
                all,
                stride as nat,
            ));
            while bytes.len() - at >= stride
                invariant
                    1 <= at <= bytes@.len(),
                    stride > 0,
                    all == bytes@.skip(1),
                    set@.union(decode_uniform(bytes@.skip(at as int), stride as nat))
                        == decode_uniform(all, stride as nat),
                decreases bytes@.len() - at,
            {
                let token = vstd::slice::slice_to_vec(
                    vstd::slice::slice_subrange(bytes, at, at + stride),
                );
                proof {
                    let rest = bytes@.skip(at as int);
                    assert(rest.take(stride as int) =~= token@);
                    assert(rest.skip(stride as int) =~= bytes@.skip(at + stride));
                    assert(set@.insert(token@).union(
                        decode_uniform(bytes@.skip(at + stride), stride as nat),
                    ) =~= set@.union(decode_uniform(rest, stride as nat)));
                }
                set.insert(token);
                at += stride;
            }
            proof {
                assert(decode_uniform(bytes@.skip(at as int), stride as nat) =~= Set::<
                    Seq<u8>,
                >::empty());
                assert(set@.union(Set::<Seq<u8>>::empty()) =~= set@);
            }
            Ok(set)
        } else if first > 1 {
            let count = first as usize;
            let ghost all = bytes@.skip(1);
            let mut at: usize = 1;
            let mut read: usize = 0;
            proof {
                lemma_joined_empty(decode_prefixed(all, count as nat));
            }
            while read < count
                invariant
                    1 <= at <= bytes@.len(),
                    read <= count,
                    all == bytes@.skip(1),
                    first == bytes@[0],
                    1 < first < 0x80,
                    count == first,
                    joined(set@, decode_prefixed(bytes@.skip(at as int), (count - read) as nat))
                        == decode_prefixed(all, count as nat),
                decreases count - read,
            {
                let ghost rest = bytes@.skip(at as int);
                if at == bytes.len() {
                    return Err(TokenSetError::MissingLength);
                }
                let len = bytes[at] as usize;
                let remaining = bytes.len() - at - 1;
                assert(rest[0] == bytes@[at as int]);
                if len > remaining {
                    return Err(TokenSetError::TokenTooLong { len, remaining });
                }
                let token = vstd::slice::slice_to_vec(
                    vstd::slice::slice_subrange(bytes, at + 1, at + 1 + len),
                );
                proof {
                    assert(rest.subrange(1, 1 + len) =~= token@);
                    assert(rest.skip(1 + len) =~= bytes@.skip(at + 1 + len));
                    let later = decode_prefixed(
                        bytes@.skip(at + 1 + len),
                        (count - read - 1) as nat,
                    );
                    match later {
                        Ok(tokens) => {
                            assert(set@.insert(token@).union(tokens) =~= set@.union(
                                tokens.insert(token@),
                            ));
                        },
                        Err(_) => {},
                    }
                }
                set.insert(token);
                at += 1 + len;
                read += 1;
            }
            proof {
                assert(set@.union(Set::<Seq<u8>>::empty()) =~= set@);
            }
            Ok(set)
        } else if first == 1 {
            let token = vstd::slice::slice_to_vec(vstd::slice::slice_subrange(bytes, 1, bytes.len()));
            assert(token@ =~= bytes@.skip(1));
            set.insert(token);
            assert(set@ =~= set![bytes@.skip(1)]);
            Ok(set)
        } else {
            Err(TokenSetError::InvalidHeader)
        }
    }
}

/// The tokens read so far together with what reading the rest gives.
pub open spec fn joined(so_far: Set<Seq<u8>>, rest: Result<Set<Seq<u8>>, TokenSetError>) -> Result<
    Set<Seq<u8>>,
    TokenSetError,
> {
    match rest {
        Ok(tokens) => Ok(so_far.union(tokens)),
        Err(e) => Err(e),
    }
}

proof fn lemma_joined_empty(rest: Result<Set<Seq<u8>>, TokenSetError>)
    ensures
        joined(Set::empty(), rest) == rest,
{
    match rest {
        Ok(tokens) => {
            assert(Set::<Seq<u8>>::empty().union(tokens) =~= tokens);
        },
        Err(_) => {},
    }
}

/// The set of a sequence is the set of all but its first element, with the first.
proof fn lemma_first_to_set(tokens: Seq<Seq<u8>>)
    requires
        tokens.len() > 0,
    ensures
        tokens.to_set() == tokens.drop_first().to_set().insert(tokens[0]),
{
    assert(tokens =~= tokens.drop_first().insert(0, tokens[0]));
    lemma_insert_to_set(tokens.drop_first(), 0, tokens[0]);
}

/// Tokens of one length, concatenated, are found again piece by piece.
pub proof fn lemma_uniform_round_trip(tokens: Seq<Seq<u8>>, stride: nat)
    requires
        stride > 0,
        forall|i: int| 0 <= i < tokens.len() ==> (#[trigger] tokens[i]).len() == stride,
    ensures
        decode_uniform(concat(tokens), stride) == tokens.to_set(),
    decreases tokens.len(),
{
    if tokens.len() == 0 {
        assert(tokens.to_set() =~= Set::<Seq<u8>>::empty());
    } else {
        let rest = tokens.drop_first();
        let bytes = concat(tokens);
        assert(tokens[0].len() == stride);
        assert(bytes.take(stride as int) =~= tokens[0]);
        assert(bytes.skip(stride as int) =~= concat(rest));
        assert forall|i: int| 0 <= i < rest.len() implies (#[trigger] rest[i]).len() == stride by {
            assert(rest[i] == tokens[i + 1]);
        }
        lemma_uniform_round_trip(rest, stride);
        lemma_first_to_set(tokens);
    }
}

/// Tokens written each behind its length are found again one by one,
/// whatever follows them.
pub proof fn lemma_prefixed_round_trip(tokens: Seq<Seq<u8>>, following: Seq<u8>)
    requires
        forall|i: int| 0 <= i < tokens.len() ==> (#[trigger] tokens[i]).len() <= MAX_TOKEN_LEN,
    ensures
        decode_prefixed(concat_prefixed(tokens) + following, tokens.len()) == Ok::<
            Set<Seq<u8>>,
            TokenSetError,
        >(tokens.to_set()),
    decreases tokens.len(),
{
    if tokens.len() == 0 {
        assert(tokens.to_set() =~= Set::<Seq<u8>>::empty());
    } else {
        let rest = tokens.drop_first();
        let bytes = concat_prefixed(tokens) + following;
        let len = tokens[0].len() as int;
        assert(len <= MAX_TOKEN_LEN);
        assert(bytes[0] == len as u8);
        assert(bytes.subrange(1, 1 + len) =~= tokens[0]);
        assert(bytes.skip(1 + len) =~= concat_prefixed(rest) + following);
        assert forall|i: int| 0 <= i < rest.len() implies (#[trigger] rest[i]).len()
            <= MAX_TOKEN_LEN by {
            assert(rest[i] == tokens[i + 1]);
        }
        lemma_prefixed_round_trip(rest, following);
        lemma_first_to_set(tokens);
    }
}

/// The binary form of a set stands for that set: at most 127 tokens in
/// ascending order, none longer than 255 bytes, are read back as they were
/// written.
pub proof fn lemma_blob_round_trip(tokens: Seq<Seq<u8>>)
    requires
        ascending(tokens),
        encodable(tokens),
    ensures
        decoded(blob(tokens)) == Ok::<Set<Seq<u8>>, TokenSetError>(tokens.to_set()),
{
    let bytes = blob(tokens);
    if tokens.len() == 0 {
        assert(tokens.to_set() =~= Set::<Seq<u8>>::empty());
    } else if tokens.len() == 1 {
        assert(bytes.skip(1) =~= tokens[0]);
        lemma_first_to_set(tokens);
        assert(tokens.drop_first().to_set() =~= Set::<Seq<u8>>::empty());
        assert(tokens.to_set() =~= set![tokens[0]]);
    } else if same_length(tokens) && tokens[0].len() <= 127 {
        let stride = tokens[0].len();
        if stride == 0 {
            assert(tokens[1].len() == 0);
            assert(tokens[0] =~= tokens[1]);
            assert(precedes(tokens[0], tokens[1]));
            lemma_precedes_irreflexive(tokens[0]);
        }
        assert(bytes.skip(1) =~= concat(tokens));
        lemma_uniform_round_trip(tokens, stride);
    } else {
        assert(bytes.skip(1) =~= concat_prefixed(tokens) + Seq::<u8>::empty());
        lemma_prefixed_round_trip(tokens, Seq::empty());
    }
}

impl TokenSet {
    /// The text of the set for one cell: none for the empty set, else the
    /// binary form in unpadded base64. Reading the text gives the set again.
    pub fn encode(&self) -> (r: Option<String>)
        requires
            encodable(self.ordered()),
        ensures
            match r {
                Some(text) => encoded_text(self.ordered()) == Some(text@) && decoded_text(text@)
                    == Ok::<Set<Seq<u8>>, TokenSetError>(self@),
                None => encoded_text(self.ordered()) is None,
            },
    {
        if self.is_empty() {
            return None;
        }
        proof {
            use_type_invariant(self);
            lemma_blob_round_trip(self.ordered());
            lemma_blob_len(self.ordered());
        }
        let bytes = self.encode_blob();
        Some(base64::encode(bytes.as_slice()))
    }
}

/// The longest binary form of a set that can be written: a first byte, and
/// 127 tokens of 255 bytes, each behind its length.
pub const MAX_BLOB_LEN: usize = 32513;

/// Tokens that can be written, one after another, are no longer than 255
/// bytes each, and one byte more behind their lengths.
proof fn lemma_concat_len(tokens: Seq<Seq<u8>>)
    requires
        forall|i: int| 0 <= i < tokens.len() ==> (#[trigger] tokens[i]).len() <= MAX_TOKEN_LEN,
    ensures
        concat(tokens).len() <= 255 * tokens.len(),
        concat_prefixed(tokens).len() <= 256 * tokens.len(),
    decreases tokens.len(),
{
    if tokens.len() > 0 {
        let rest = tokens.drop_first();
        assert(tokens[0].len() <= MAX_TOKEN_LEN);
        assert forall|i: int| 0 <= i < rest.len() implies (#[trigger] rest[i]).len()
            <= MAX_TOKEN_LEN by {
            assert(rest[i] == tokens[i + 1]);
        }
        lemma_concat_len(rest);
    }
}

/// The binary form of a set that can be written has at most 32513 bytes.
pub proof fn lemma_blob_len(tokens: Seq<Seq<u8>>)
    requires
        encodable(tokens),
    ensures
        blob(tokens).len() <= MAX_BLOB_LEN,
{
    lemma_concat_len(tokens);
    if tokens.len() >= 1 {
        assert(tokens[0].len() <= MAX_TOKEN_LEN);
    }
}

/// Reads a token set from the text of one cell.
pub fn deserialize_token_set(s: &str) -> (r: Result<TokenSet, TokenSetError>)
    ensures
        match r {
            Ok(set) => decoded_text(s@) == Ok::<Set<Seq<u8>>, TokenSetError>(set@),
            Err(e) => decoded_text(s@) == Err::<Set<Seq<u8>>, TokenSetError>(e),
        },
{
    // The decoder takes no text of more bytes than this
    if s.as_bytes().len() > usize::MAX / 8 {
        return Err(TokenSetError::Base64);
    }
    match base64::decode(s) {
        Ok(bytes) => TokenSet::decode_blob(bytes.as_slice()),
        Err(_) => Err(TokenSetError::Base64),
    }
}

impl Clone for TokenSet {
    fn clone(&self) -> (r: Self)
        ensures
            r.ordered() == self.ordered(),
    {
        proof {
            use_type_invariant(self);
        }
        let mut tokens: Vec<Vec<u8>> = Vec::new();
        let mut i: usize = 0;
        while i < self.tokens.len()
            invariant
                i <= self.tokens@.len(),
                tokens@.len() == i,
                forall|j: int| 0 <= j < i ==> tokens@[j]@ == self.tokens@[j]@,
            decreases self.tokens@.len() - i,
        {
            tokens.push(vstd::slice::slice_to_vec(self.tokens[i].as_slice()));
            i += 1;
        }
        assert(Seq::new(tokens@.len(), |k: int| tokens@[k]@) =~= self.ordered());
        TokenSet { tokens }
    }
}

/// The tokens one after another.
pub open spec fn concat(tokens: Seq<Seq<u8>>) -> Seq<u8>
    decreases tokens.len(),
{
    if tokens.len() == 0 {
        Seq::empty()
    } else {
        tokens[0] + concat(tokens.drop_first())
    }
}

/// The tokens one after another, each behind a byte that holds its length.
pub open spec fn concat_prefixed(tokens: Seq<Seq<u8>>) -> Seq<u8>
    decreases tokens.len(),
{
    if tokens.len() == 0 {
        Seq::empty()
    } else {
        seq![tokens[0].len() as u8] + tokens[0] + concat_prefixed(tokens.drop_first())
    }
}

/// Whether all tokens have the length of the first.
pub open spec fn same_length(tokens: Seq<Seq<u8>>) -> bool {
    forall|i: int| 0 <= i < tokens.len() ==> (#[trigger] tokens[i]).len() == tokens[0].len()
}

/// Whether the tokens can be written: at most 127 of them, none longer than 255 bytes.
pub open spec fn encodable(tokens: Seq<Seq<u8>>) -> bool {
    &&& tokens.len() <= MAX_TOKENS
    &&& forall|i: int| 0 <= i < tokens.len() ==> (#[trigger] tokens[i]).len() <= MAX_TOKEN_LEN
}

/// The binary form of the tokens, taken in the order given.
///
/// No token gives no byte. One token follows a byte 1. Two or more tokens of
/// one length of at most 127 follow a byte that holds the length with the
/// high bit set. All others follow their count, each behind its length.
pub open spec fn blob(tokens: Seq<Seq<u8>>) -> Seq<u8> {
    if tokens.len() == 0 {
        Seq::empty()
    } else if tokens.len() == 1 {
        seq![1u8] + tokens[0]
    } else if same_length(tokens) && tokens[0].len() <= 127 {
        seq![(0x80 + tokens[0].len()) as u8] + concat(tokens)
    } else {
        seq![tokens.len() as u8] + concat_prefixed(tokens)
    }
}

/// Why a binary form or a text is no token set.
#[derive(Debug, Clone, Copy, PartialEq, Eq)]
pub enum TokenSetError {
    /// The text is no unpadded base64.
    Base64,
    /// The first byte is 0, which starts no form.
    InvalidHeader,
    /// The first byte announces tokens of length 0.
    ZeroStride,
    /// The blob ends where the length of a token should stand.
    MissingLength,
    /// A token is announced with more bytes than are left behind its length.
    TokenTooLong { len: usize, remaining: usize },
}

impl TokenSetError {
    /// The words that say what is wrong.
    pub open spec fn words(self) -> Seq<char> {
        match self {
            TokenSetError::Base64 => "text is not unpadded base64"@,
            TokenSetError::InvalidHeader => "first byte 0 starts no token set"@,
            TokenSetError::ZeroStride => "tokens of length 0 cannot be told apart"@,
            TokenSetError::MissingLength => "token length is missing"@,
            TokenSetError::TokenTooLong { len, remaining } => "token length "@ + decimal(
                len as nat,
            ) + " is longer than remaining binary slice"@,
        }
    }

    /// The fault in words.
    pub fn message(&self) -> (r: String)
        ensures
            r@ == self.words(),
    {
        match self {
            TokenSetError::Base64 => String::from_str("text is not unpadded base64"),
            TokenSetError::InvalidHeader => String::from_str("first byte 0 starts no token set"),
            TokenSetError::ZeroStride => String::from_str(
                "tokens of length 0 cannot be told apart",
            ),
            TokenSetError::MissingLength => String::from_str("token length is missing"),
            TokenSetError::TokenTooLong { len, remaining } => {
                let mut out = String::from_str("token length ");
                push_decimal(&mut out, *len as u64);
                out.append(" is longer than remaining binary slice");
                assert(out@ =~= self.words());
                out
            },
        }
    }
}

/// The tokens that `rest` holds in pieces of `stride` bytes; a shorter piece
/// at the end is no token.
pub open spec fn decode_uniform(rest: Seq<u8>, stride: nat) -> Set<Seq<u8>>
    recommends
        stride > 0,
    decreases rest.len(),
{
    if stride == 0 || rest.len() < stride {
        Set::empty()
    } else {
        decode_uniform(rest.skip(stride as int), stride).insert(rest.take(stride as int))
    }
}

/// The first `count` tokens that `rest` holds, each behind its length, or
/// the first fault; what follows them is not looked at.
pub open spec fn decode_prefixed(rest: Seq<u8>, count: nat) -> Result<Set<Seq<u8>>, TokenSetError>
    decreases count,
{
    if count == 0 {
        Ok(Set::empty())
    } else if rest.len() == 0 {
        Err(TokenSetError::MissingLength)
    } else if rest[0] > rest.len() - 1 {
        Err(TokenSetError::TokenTooLong { len: rest[0] as usize, remaining: (rest.len() - 1) as usize })
    } else {
        match decode_prefixed(rest.skip(1 + rest[0]), (count - 1) as nat) {
            Ok(tokens) => Ok(tokens.insert(rest.subrange(1, 1 + rest[0]))),
            Err(e) => Err(e),
        }
    }
}

/// The set that a binary form stands for, or why it stands for none.
pub open spec fn decoded(bytes: Seq<u8>) -> Result<Set<Seq<u8>>, TokenSetError> {
    if bytes.len() == 0 {
        Ok(Set::empty())
    } else if bytes[0] >= 0x80 {
        if bytes[0] == 0x80 {
            Err(TokenSetError::ZeroStride)
        } else {
            Ok(decode_uniform(bytes.skip(1), (bytes[0] - 0x80) as nat))
        }
    } else if bytes[0] > 1 {
        decode_prefixed(bytes.skip(1), bytes[0] as nat)
    } else if bytes[0] == 1 {
        Ok(set![bytes.skip(1)])
    } else {
        Err(TokenSetError::InvalidHeader)
    }
}

/// The set that a text stands for, or why it stands for none. A text of
/// more bytes than the decoder takes is refused like one that is no base64.
pub open spec fn decoded_text(text: Seq<char>) -> Result<Set<Seq<u8>>, TokenSetError> {
    if vstd::utf8::encode_utf8(text).len() > max_decoded() {
        Err(TokenSetError::Base64)
    } else {
        match base64_nopad_decoded(text) {
            Some(bytes) => decoded(bytes),
            None => Err(TokenSetError::Base64),
        }
    }
}

/// The text of a set: none for the empty set, else its binary form in
/// unpadded base64.
pub open spec fn encoded_text(tokens: Seq<Seq<u8>>) -> Option<Seq<char>> {
    if tokens.len() == 0 {
        None
    } else {
        Some(base64_nopad(blob(tokens)))
    }
}

/// The set of a sequence with one more element is the set of the sequence
/// with that element.
proof fn lemma_insert_to_set(s: Seq<Seq<u8>>, i: int, x: Seq<u8>)
    requires
        0 <= i <= s.len(),
    ensures
        s.insert(i, x).to_set() == s.to_set().insert(x),
{
    let t = s.insert(i, x);
    assert forall|y: Seq<u8>| t.to_set().contains(y) <==> s.to_set().insert(x).contains(y) by {
        if t.contains(y) {
            let k = choose|k: int| 0 <= k < t.len() && t[k] == y;
            if k < i {
                assert(s[k] == y);
            } else if k > i {
                assert(s[k - 1] == y);
            }
        }
        if s.contains(y) {
            let k = choose|k: int| 0 <= k < s.len() && s[k] == y;
            if k < i {
                assert(t[k] == y);
            } else {
                assert(t[k + 1] == y);
            }
        }
        if y == x {
            assert(t[i] == y);
        }
    }
    assert(t.to_set() =~= s.to_set().insert(x));
}

} // verus!
