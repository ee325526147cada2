//! The multi-asset value: quantities keyed by policy id and asset name,
//! kept as one list of entries in strictly ascending key order, without
//! zero quantities.
use vstd::prelude::*;

use crate::bytes::append_bytes;
use crate::error::Error;
use crate::lex::{lemma_lex_asymmetric, lemma_lex_irreflexive, lemma_lex_total, lemma_lex_transitive, lex_compare, lex_lt};
use vstd::slice::slice_to_vec;

verus! {

/// Width of a policy id.
pub const POLICY_ID_LEN: usize = 28;

/// Largest width of an asset name.
pub const ASSET_NAME_MAX_LEN: usize = 32;

/// One quantity of the map.
#[derive(Debug, Clone)]
pub struct AssetEntry {
    pub policy: Vec<u8>,
    pub name: Vec<u8>,
    pub quantity: u64,
}

impl View for AssetEntry {
    type V = (Seq<u8>, Seq<u8>, u64);

    open spec fn view(&self) -> (Seq<u8>, Seq<u8>, u64) {
        (self.policy@, self.name@, self.quantity)
    }
}

/// Quantities by policy id and asset name.
#[derive(Debug, Clone)]
pub struct MultiAsset {
    entries: Vec<AssetEntry>,
}

/// Keys are ordered by policy id, then by asset name.
pub open spec fn key_lt(x: (Seq<u8>, Seq<u8>, u64), y: (Seq<u8>, Seq<u8>, u64)) -> bool {
    lex_lt(x.0, y.0) || (x.0 == y.0 && lex_lt(x.1, y.1))
}

/// Keys strictly ascend, widths are valid and no quantity is zero.
pub open spec fn entries_wf(s: Seq<(Seq<u8>, Seq<u8>, u64)>) -> bool {
    &&& forall|i: int, j: int| 0 <= i < j < s.len() ==> key_lt(s[i], s[j])
    &&& forall|i: int|
        0 <= i < s.len() ==> s[i].0.len() == POLICY_ID_LEN && s[i].1.len() <= ASSET_NAME_MAX_LEN
            && s[i].2 > 0
}

pub open spec fn has_key(s: Seq<(Seq<u8>, Seq<u8>, u64)>, i: int, p: Seq<u8>, n: Seq<u8>) -> bool {
    0 <= i < s.len() && s[i].0 == p && s[i].1 == n
}

/// The quantity held under a key: zero where there is no entry.
pub open spec fn qty_of(s: Seq<(Seq<u8>, Seq<u8>, u64)>, p: Seq<u8>, n: Seq<u8>) -> nat {
    if exists|i: int| has_key(s, i, p, n) {
        s[choose|i: int| has_key(s, i, p, n)].2 as nat
    } else {
        0
    }
}

proof fn lemma_key_lt_transitive(
    x: (Seq<u8>, Seq<u8>, u64),
    y: (Seq<u8>, Seq<u8>, u64),
    z: (Seq<u8>, Seq<u8>, u64),
)
    requires
        key_lt(x, y),
        key_lt(y, z),
    ensures
        key_lt(x, z),
{
    if lex_lt(x.0, y.0) && lex_lt(y.0, z.0) {
        lemma_lex_transitive(x.0, y.0, z.0);
    } else if x.0 == y.0 && y.0 == z.0 {
        lemma_lex_transitive(x.1, y.1, z.1);
    }
}

proof fn lemma_key_lt_irreflexive(x: (Seq<u8>, Seq<u8>, u64), y: (Seq<u8>, Seq<u8>, u64))
    requires
        x.0 == y.0,
        x.1 == y.1,
    ensures
        !key_lt(x, y),
{
    lemma_lex_irreflexive(x.0);
    lemma_lex_irreflexive(x.1);
}

proof fn lemma_key_lt_asymmetric(x: (Seq<u8>, Seq<u8>, u64), y: (Seq<u8>, Seq<u8>, u64))
    ensures
        !(key_lt(x, y) && key_lt(y, x)),
{
    lemma_lex_asymmetric(x.0, y.0);
    lemma_lex_asymmetric(x.1, y.1);
    lemma_lex_irreflexive(x.0);
}

proof fn lemma_key_lt_total(x: (Seq<u8>, Seq<u8>, u64), y: (Seq<u8>, Seq<u8>, u64))
    requires
        x.0 != y.0 || x.1 != y.1,
    ensures
        key_lt(x, y) || key_lt(y, x),
{
    if x.0 != y.0 {
        lemma_lex_total(x.0, y.0);
    } else {
        lemma_lex_total(x.1, y.1);
    }
}

/// In a well-formed list each key stands at one index only.
proof fn lemma_key_unique(s: Seq<(Seq<u8>, Seq<u8>, u64)>, i: int, j: int, p: Seq<u8>, n: Seq<u8>)
    requires
        entries_wf(s),
        has_key(s, i, p, n),
        has_key(s, j, p, n),
    ensures
        i == j,
{
    if i < j {
        lemma_key_lt_irreflexive(s[i], s[j]);
    } else if j < i {
        lemma_key_lt_irreflexive(s[j], s[i]);
    }
}

/// The quantity under the key of an entry is that entry's quantity.
proof fn lemma_qty_at(s: Seq<(Seq<u8>, Seq<u8>, u64)>, i: int)
    requires
        entries_wf(s),
        0 <= i < s.len(),
    ensures
        qty_of(s, s[i].0, s[i].1) == s[i].2 as nat,
{
    assert(has_key(s, i, s[i].0, s[i].1));
    let j = choose|j: int| has_key(s, j, s[i].0, s[i].1);
    lemma_key_unique(s, i, j, s[i].0, s[i].1);
}

proof fn lemma_qty_bounded(s: Seq<(Seq<u8>, Seq<u8>, u64)>, p: Seq<u8>, n: Seq<u8>)
    ensures
        qty_of(s, p, n) <= u64::MAX,
{
}

/// Inserting an entry at its place keeps the list well-formed and sets the
/// quantity under its key.
proof fn lemma_insert(s: Seq<(Seq<u8>, Seq<u8>, u64)>, i: int, e: (Seq<u8>, Seq<u8>, u64))
    requires
        entries_wf(s),
        0 <= i <= s.len(),
        forall|a: int| 0 <= a < i ==> key_lt(#[trigger] s[a], e),
        i < s.len() ==> key_lt(e, s[i]),
        e.0.len() == POLICY_ID_LEN,
        e.1.len() <= ASSET_NAME_MAX_LEN,
        e.2 > 0,
    ensures
        entries_wf(s.insert(i, e)),
        forall|p: Seq<u8>, n: Seq<u8>|
            #[trigger] qty_of(s.insert(i, e), p, n) == if p == e.0 && n == e.1 {
                e.2 as nat
            } else {
                qty_of(s, p, n)
            },
{
    let t = s.insert(i, e);
    assert forall|a: int, b: int| 0 <= a < b < t.len() implies key_lt(t[a], t[b]) by {
        if b < i {
        } else if b == i {
        } else if a < i {
            lemma_key_lt_transitive(t[a], e, s[i]);
            if b - 1 > i {
                lemma_key_lt_transitive(t[a], s[i], t[b]);
            }
        } else if a == i {
            if b - 1 > i {
                lemma_key_lt_transitive(e, s[i], t[b]);
            }
        } else {
        }
    }
    assert forall|p: Seq<u8>, n: Seq<u8>|
        #[trigger] qty_of(t, p, n) == if p == e.0 && n == e.1 {
            e.2 as nat
        } else {
            qty_of(s, p, n)
        } by {
        if p == e.0 && n == e.1 {
            lemma_qty_at(t, i);
        } else if exists|j: int| has_key(s, j, p, n) {
            let j = choose|j: int| has_key(s, j, p, n);
            lemma_qty_at(s, j);
            if j < i {
                lemma_qty_at(t, j);
            } else {
                lemma_qty_at(t, j + 1);
            }
        } else {
            assert forall|j: int| !has_key(t, j, p, n) by {
                if has_key(t, j, p, n) {
                    if j < i {
                        assert(has_key(s, j, p, n));
                    } else if j > i {
                        assert(has_key(s, j - 1, p, n));
                    }
                }
            }
        }
    }
}

/// Removing an entry keeps the list well-formed and clears its key.
proof fn lemma_remove(s: Seq<(Seq<u8>, Seq<u8>, u64)>, i: int)
    requires
        entries_wf(s),
        0 <= i < s.len(),
    ensures
        entries_wf(s.remove(i)),
        forall|p: Seq<u8>, n: Seq<u8>|
            #[trigger] qty_of(s.remove(i), p, n) == if p == s[i].0 && n == s[i].1 {
                0
            } else {
                qty_of(s, p, n)
            },
{
    let t = s.remove(i);
    assert forall|a: int, b: int| 0 <= a < b < t.len() implies key_lt(t[a], t[b]) by {
        if a < i && b >= i {
            assert(t[b] == s[b + 1]);
        }
    }
    assert forall|p: Seq<u8>, n: Seq<u8>|
        #[trigger] qty_of(t, p, n) == if p == s[i].0 && n == s[i].1 {
            0
        } else {
            qty_of(s, p, n)
        } by {
        if p == s[i].0 && n == s[i].1 {
            assert forall|j: int| !has_key(t, j, p, n) by {
                if has_key(t, j, p, n) {
                    if j < i {
                        lemma_key_unique(s, i, j, p, n);
                    } else {
                        lemma_key_unique(s, i, j + 1, p, n);
                    }
                }
            }
        } else if exists|j: int| has_key(s, j, p, n) {
            let j = choose|j: int| has_key(s, j, p, n);
            lemma_qty_at(s, j);
            if j < i {
                lemma_qty_at(t, j);
            } else {
                lemma_qty_at(t, j - 1);
            }
        } else {
            assert forall|j: int| !has_key(t, j, p, n) by {
                if has_key(t, j, p, n) {
                    if j < i {
                        assert(has_key(s, j, p, n));
                    } else {
                        assert(has_key(s, j + 1, p, n));
                    }
                }
            }
        }
    }
}

/// Changing the quantity of an entry to another positive one.
proof fn lemma_update(s: Seq<(Seq<u8>, Seq<u8>, u64)>, i: int, q: u64)
    requires
        entries_wf(s),
        0 <= i < s.len(),
        q > 0,
    ensures
        entries_wf(s.update(i, (s[i].0, s[i].1, q))),
        forall|p: Seq<u8>, n: Seq<u8>|
            #[trigger] qty_of(s.update(i, (s[i].0, s[i].1, q)), p, n) == if p == s[i].0 && n
                == s[i].1 {
                q as nat
            } else {
                qty_of(s, p, n)
            },
{
    let t = s.update(i, (s[i].0, s[i].1, q));
    assert forall|a: int, b: int| 0 <= a < b < t.len() implies key_lt(t[a], t[b]) by {
        assert(key_lt(s[a], s[b]));
    }
    assert(entries_wf(t));
    assert forall|p: Seq<u8>, n: Seq<u8>|
        #[trigger] qty_of(t, p, n) == if p == s[i].0 && n == s[i].1 {
            q as nat
        } else {
            qty_of(s, p, n)
        } by {
        if p == s[i].0 && n == s[i].1 {
            lemma_qty_at(t, i);
        } else if exists|j: int| has_key(s, j, p, n) {
            let j = choose|j: int| has_key(s, j, p, n);
            lemma_qty_at(s, j);
            lemma_qty_at(t, j);
        } else {
            assert forall|j: int| !has_key(t, j, p, n) by {
                if has_key(t, j, p, n) {
                    assert(has_key(s, j, p, n));
                }
            }
        }
    }
}

/// The quantity under a key counted from the first `j` entries only.
pub open spec fn prefix_qty(s: Seq<(Seq<u8>, Seq<u8>, u64)>, j: int, p: Seq<u8>, n: Seq<u8>) -> nat {
    if exists|i: int| 0 <= i < j && has_key(s, i, p, n) {
        qty_of(s, p, n)
    } else {
        0
    }
}

proof fn lemma_prefix_step(s: Seq<(Seq<u8>, Seq<u8>, u64)>, j: int)
    requires
        entries_wf(s),
        0 <= j < s.len(),
    ensures
        prefix_qty(s, j, s[j].0, s[j].1) == 0,
        prefix_qty(s, j + 1, s[j].0, s[j].1) == s[j].2,
        forall|p: Seq<u8>, n: Seq<u8>|
            !(p == s[j].0 && n == s[j].1) ==> #[trigger] prefix_qty(s, j + 1, p, n)
                == prefix_qty(s, j, p, n),
{
    lemma_qty_at(s, j);
    assert forall|i: int| !(0 <= i < j && has_key(s, i, s[j].0, s[j].1)) by {
        if 0 <= i < j && has_key(s, i, s[j].0, s[j].1) {
            lemma_key_unique(s, i, j, s[j].0, s[j].1);
        }
    }
    assert(0 <= j < j + 1 && has_key(s, j, s[j].0, s[j].1));
    assert forall|p: Seq<u8>, n: Seq<u8>|
        !(p == s[j].0 && n == s[j].1) implies #[trigger] prefix_qty(s, j + 1, p, n)
            == prefix_qty(s, j, p, n) by {
        if exists|i: int| 0 <= i < j + 1 && has_key(s, i, p, n) {
            let i = choose|i: int| 0 <= i < j + 1 && has_key(s, i, p, n);
            assert(0 <= i < j && has_key(s, i, p, n));
        }
    }
}

proof fn lemma_prefix_ends(s: Seq<(Seq<u8>, Seq<u8>, u64)>)
    ensures
        forall|p: Seq<u8>, n: Seq<u8>| #[trigger] prefix_qty(s, 0, p, n) == 0,
        forall|p: Seq<u8>, n: Seq<u8>| #[trigger] prefix_qty(s, s.len() as int, p, n) == qty_of(s, p, n),
{
    assert forall|p: Seq<u8>, n: Seq<u8>| #[trigger] prefix_qty(s, s.len() as int, p, n) == qty_of(s, p, n) by {
        if exists|i: int| has_key(s, i, p, n) {
            let i = choose|i: int| has_key(s, i, p, n);
            assert(0 <= i < s.len() && has_key(s, i, p, n));
        }
    }
}

/// Two well-formed lists that hold the same quantity under every key are
/// the same list.
proof fn lemma_same_quantities_same_entries(s: Seq<(Seq<u8>, Seq<u8>, u64)>, t: Seq<(Seq<u8>, Seq<u8>, u64)>)
    requires
        entries_wf(s),
        entries_wf(t),
        forall|p: Seq<u8>, n: Seq<u8>| #[trigger] qty_of(s, p, n) == qty_of(t, p, n),
    ensures
        s == t,
    decreases s.len() + t.len(),
{
    if s.len() == 0 && t.len() == 0 {
        assert(s =~= t);
        return;
    }
    if s.len() == 0 {
        lemma_qty_at(t, 0);
        assert(qty_of(s, t[0].0, t[0].1) == 0);
        return;
    }
    if t.len() == 0 {
        lemma_qty_at(s, 0);
        assert(qty_of(t, s[0].0, s[0].1) == 0);
        return;
    }
    let x = s[0];
    let y = t[0];
    lemma_qty_at(s, 0);
    lemma_qty_at(t, 0);
    assert(qty_of(t, x.0, x.1) > 0);
    assert(qty_of(s, y.0, y.1) > 0);
    let jx = choose|j: int| has_key(t, j, x.0, x.1);
    let iy = choose|i: int| has_key(s, i, y.0, y.1);
    if jx > 0 && iy > 0 {
        assert(key_lt(y, t[jx]));
        assert(key_lt(x, s[iy]));
        lemma_key_lt_asymmetric(x, y);
    }
    if jx == 0 {
        assert(x == y);
    } else {
        lemma_qty_at(s, iy);
        assert(x == y);
    }
    lemma_remove(s, 0);
    lemma_remove(t, 0);
    lemma_same_quantities_same_entries(s.remove(0), t.remove(0));
    assert(s =~= seq![x] + s.remove(0));
    assert(t =~= seq![y] + t.remove(0));
}

/// `n` as `k` big-endian bytes.
pub open spec fn be_bytes(n: nat, k: nat) -> Seq<u8>
    decreases k,
{
    if k == 0 {
        Seq::empty()
    } else {
        be_bytes(n / 256, (k - 1) as nat).push((n % 256) as u8)
    }
}

/// The head of a data item: the major type in the top three bits, then the
/// argument in the shortest of the five forms.
pub open spec fn cbor_head(major: nat, n: nat) -> Seq<u8> {
    if n < 24 {
        seq![(major * 32 + n) as u8]
    } else if n < 0x100 {
        seq![(major * 32 + 24) as u8] + be_bytes(n, 1)
    } else if n < 0x10000 {
        seq![(major * 32 + 25) as u8] + be_bytes(n, 2)
    } else if n < 0x1_0000_0000 {
        seq![(major * 32 + 26) as u8] + be_bytes(n, 4)
    } else {
        seq![(major * 32 + 27) as u8] + be_bytes(n, 8)
    }
}

/// Whether entry `i` opens the run of its policy id.
pub open spec fn starts_policy(s: Seq<(Seq<u8>, Seq<u8>, u64)>, i: int) -> bool {
    i == 0 || s[i].0 != s[i - 1].0
}

/// The index after the run of entries that share the policy id of entry `i`.
pub open spec fn run_end(s: Seq<(Seq<u8>, Seq<u8>, u64)>, i: int) -> int
    decreases s.len() - i,
{
    if i < 0 || i + 1 >= s.len() {
        s.len() as int
    } else if s[i + 1].0 != s[i].0 {
        i + 1
    } else {
        run_end(s, i + 1)
    }
}

/// How many runs of policy ids start at or after `i`.
pub open spec fn policy_count(s: Seq<(Seq<u8>, Seq<u8>, u64)>, i: int) -> nat
    decreases s.len() - i,
{
    if i < 0 || i >= s.len() {
        0
    } else {
        (if starts_policy(s, i) {
            1nat
        } else {
            0nat
        }) + policy_count(s, i + 1)
    }
}

/// The encoding of the entries from `i` on: each run opens with its policy
/// id and the number of its assets, and each entry gives its asset name and
/// quantity.
pub open spec fn entries_bytes(s: Seq<(Seq<u8>, Seq<u8>, u64)>, i: int) -> Seq<u8>
    decreases s.len() - i,
{
    if i < 0 || i >= s.len() {
        Seq::empty()
    } else {
        let opening = if starts_policy(s, i) {
            cbor_head(2, s[i].0.len()) + s[i].0 + cbor_head(5, (run_end(s, i) - i) as nat)
        } else {
            Seq::empty()
        };
        opening + cbor_head(2, s[i].1.len()) + s[i].1 + cbor_head(0, s[i].2 as nat)
            + entries_bytes(s, i + 1)
    }
}

/// The canonical encoding: a map from policy id to a map from asset name to
/// quantity, both with definite length, keys in ascending order.
pub open spec fn canonical_spec(s: Seq<(Seq<u8>, Seq<u8>, u64)>) -> Seq<u8> {
    cbor_head(5, policy_count(s, 0)) + entries_bytes(s, 0)
}

/// Appends `n` as `k` big-endian bytes.
fn push_be(out: &mut Vec<u8>, n: u64, k: usize)
    ensures
        final(out)@ == old(out)@ + be_bytes(n as nat, k as nat),
    decreases k,
{
    if k > 0 {
        push_be(out, n / 256, k - 1);
        out.push((n % 256) as u8);
        proof {
            assert(final(out)@ =~= old(out)@ + be_bytes(n as nat, k as nat));
        }
    } else {
        proof {
            assert(final(out)@ =~= old(out)@ + be_bytes(n as nat, k as nat));
        }
    }
}

/// Appends the head of a data item of major type `major`.
fn push_head(out: &mut Vec<u8>, major: u8, n: u64)
    requires
        major < 8,
    ensures
        final(out)@ == old(out)@ + cbor_head(major as nat, n as nat),
{
    let ghost start = out@;
    if n < 24 {
        out.push(major * 32 + n as u8);
    } else if n < 0x100 {
        out.push(major * 32 + 24);
        push_be(out, n, 1);
    } else if n < 0x10000 {
        out.push(major * 32 + 25);
        push_be(out, n, 2);
    } else if n < 0x1_0000_0000 {
        out.push(major * 32 + 26);
        push_be(out, n, 4);
    } else {
        out.push(major * 32 + 27);
        push_be(out, n, 8);
    }
    proof {
        assert(out@ =~= start + cbor_head(major as nat, n as nat));
    }
}

impl View for MultiAsset {
    type V = Seq<(Seq<u8>, Seq<u8>, u64)>;

    closed spec fn view(&self) -> Seq<(Seq<u8>, Seq<u8>, u64)> {
        self.entries@.map_values(|e: AssetEntry| e@)
    }
}

impl MultiAsset {
    pub open spec fn wf(&self) -> bool {
        entries_wf(self@)
    }

    /// The quantity under a policy id and asset name.
    pub open spec fn qty(&self, p: Seq<u8>, n: Seq<u8>) -> nat {
        qty_of(self@, p, n)
    }

    /// The empty map.
    pub fn new() -> (r: MultiAsset)
        ensures
            r.wf(),
            r@.len() == 0,
            forall|p: Seq<u8>, n: Seq<u8>| r.qty(p, n) == 0,
    {
        let r = MultiAsset { entries: Vec::new() };
        proof {
            assert(r@ =~= Seq::<(Seq<u8>, Seq<u8>, u64)>::empty());
        }
        r
    }

    /// The number of entries.
    pub fn len(&self) -> (r: usize)
        ensures
            r == self@.len(),
    {
        self.entries.len()
    }

    /// Where the key stands, or where it would be inserted: every entry
    /// before that index has a smaller key.
    fn locate(&self, p: &[u8], n: &[u8]) -> (r: (usize, bool))
        requires
            self.wf(),
        ensures
            r.0 <= self@.len(),
            forall|a: int| 0 <= a < r.0 ==> key_lt(#[trigger] self@[a], (p@, n@, 0u64)),
            r.1 ==> has_key(self@, r.0 as int, p@, n@),
            !r.1 ==> r.0 < self@.len() ==> key_lt((p@, n@, 0u64), self@[r.0 as int]),
    {
        let mut i: usize = 0;
        while i < self.entries.len()
            invariant
                self.wf(),
                i <= self@.len(),
                forall|a: int| 0 <= a < i ==> key_lt(#[trigger] self@[a], (p@, n@, 0u64)),
            decreases self@.len() - i,
        {
            let e = &self.entries[i];
            proof {
                assert(self@[i as int] == e@);
            }
            let c1 = lex_compare(e.policy.as_slice(), p);
            let c2 = lex_compare(e.name.as_slice(), n);
            if c1 < 0 || (c1 == 0 && c2 < 0) {
                i = i + 1;
            } else {
                proof {
                    if !(c1 == 0 && c2 == 0) {
                        lemma_key_lt_total(e@, (p@, n@, 0u64));
                    }
                }
                return (i, c1 == 0 && c2 == 0);
            }
        }
        (i, false)
    }

    /// The quantity under a policy id and asset name; zero where absent.
    pub fn get(&self, policy: &[u8], name: &[u8]) -> (r: u64)
        requires
            self.wf(),
        ensures
            r as nat == self.qty(policy@, name@),
    {
        let (i, found) = self.locate(policy, name);
        if found {
            proof {
                lemma_qty_at(self@, i as int);
            }
            self.entries[i].quantity
        } else {
            proof {
                if exists|j: int| has_key(self@, j, policy@, name@) {
                    let j = choose|j: int| has_key(self@, j, policy@, name@);
                    lemma_key_lt_irreflexive(self@[j], (policy@, name@, 0u64));
                    if j > i {
                        lemma_key_lt_transitive((policy@, name@, 0u64), self@[i as int], self@[j]);
                    }
                    if j != i {
                        lemma_key_lt_irreflexive((policy@, name@, 0u64), self@[j]);
                    }
                }
            }
            0
        }
    }
    /// Sets the quantity under a policy id and asset name; a zero quantity
    /// removes the entry. `InvalidLength` unless the policy id is 28 bytes
    /// and the name at most 32.
    pub fn set(&mut self, policy: &[u8], name: &[u8], quantity: u64) -> (r: Result<(), Error>)
        requires
            old(self).wf(),
        ensures
            final(self).wf(),
            policy@.len() == POLICY_ID_LEN && name@.len() <= ASSET_NAME_MAX_LEN ==> r is Ok,
            policy@.len() == POLICY_ID_LEN && name@.len() <= ASSET_NAME_MAX_LEN ==> forall|
                p: Seq<u8>,
                n: Seq<u8>,
            |
                #[trigger] final(self).qty(p, n) == if p == policy@ && n == name@ {
                    quantity as nat
                } else {
                    old(self).qty(p, n)
                },
            !(policy@.len() == POLICY_ID_LEN && name@.len() <= ASSET_NAME_MAX_LEN) ==> r == Err::<
                (),
                Error,
            >(Error::InvalidLength) && final(self)@ == old(self)@,
    {
        if policy.len() != POLICY_ID_LEN || name.len() > ASSET_NAME_MAX_LEN {
            return Err(Error::InvalidLength);
        }
        let (i, found) = self.locate(policy, name);
        let ghost s = self@;
        if found {
            if quantity == 0 {
                self.entries.remove(i);
                proof {
                    assert(self@ =~= s.remove(i as int));
                    lemma_remove(s, i as int);
                }
            } else {
                self.entries[i].quantity = quantity;
                proof {
                    assert(self@ =~= s.update(i as int, (s[i as int].0, s[i as int].1, quantity)));
                    lemma_update(s, i as int, quantity);
                }
            }
        } else if quantity != 0 {
            let e = AssetEntry { policy: slice_to_vec(policy), name: slice_to_vec(name), quantity };
            self.entries.insert(i, e);
            proof {
                assert(self@ =~= s.insert(i as int, e@));
                assert forall|a: int| 0 <= a < i implies key_lt(#[trigger] s[a], e@) by {
                    assert(key_lt(s[a], (policy@, name@, 0u64)));
                }
                lemma_insert(s, i as int, e@);
            }
        } else {
            proof {
                assert forall|p: Seq<u8>, n: Seq<u8>|
                    #[trigger] self.qty(p, n) == if p == policy@ && n == name@ {
                        quantity as nat
                    } else {
                        old(self).qty(p, n)
                    } by {
                    if p == policy@ && n == name@ {
                        assert forall|j: int| !has_key(s, j, p, n) by {
                            if has_key(s, j, p, n) {
                                lemma_key_lt_irreflexive(s[j], (policy@, name@, 0u64));
                                if j > i {
                                    lemma_key_lt_transitive(
                                        (policy@, name@, 0u64),
                                        s[i as int],
                                        s[j],
                                    );
                                }
                                if j != i {
                                    lemma_key_lt_irreflexive((policy@, name@, 0u64), s[j]);
                                }
                            }
                        }
                    }
                }
            }
        }
        Ok(())
    }
    /// A copy with the same entries.
    pub fn copy(&self) -> (r: MultiAsset)
        ensures
            r@ == self@,
    {
        let mut entries: Vec<AssetEntry> = Vec::new();
        let mut i: usize = 0;
        while i < self.entries.len()
            invariant
                i <= self.entries@.len(),
                entries@.len() == i,
                forall|a: int| 0 <= a < i ==> (#[trigger] entries@[a])@ == self.entries@[a]@,
            decreases self.entries@.len() - i,
        {
            let e = &self.entries[i];
            entries.push(
                AssetEntry {
                    policy: slice_to_vec(e.policy.as_slice()),
                    name: slice_to_vec(e.name.as_slice()),
                    quantity: e.quantity,
                },
            );
            i = i + 1;
        }
        let r = MultiAsset { entries };
        proof {
            assert(r@ =~= self@);
        }
        r
    }

    /// The sum under every key; `QuantityOverflow` when some sum does not
    /// fit in 64 bits.
    pub fn add(&self, other: &MultiAsset) -> (r: Result<MultiAsset, Error>)
        requires
            self.wf(),
            other.wf(),
        ensures
            (exists|p: Seq<u8>, n: Seq<u8>| self.qty(p, n) + other.qty(p, n) > u64::MAX) ==> r
                == Err::<MultiAsset, Error>(Error::QuantityOverflow),
            !(exists|p: Seq<u8>, n: Seq<u8>| self.qty(p, n) + other.qty(p, n) > u64::MAX) ==> (r matches Ok(m) && m.wf() && forall|p: Seq<u8>, n: Seq<u8>|
                #[trigger] m.qty(p, n) == self.qty(p, n) + other.qty(p, n)),
    {
        let mut res = self.copy();
        let mut j: usize = 0;
        proof {
            lemma_prefix_ends(other@);
        }
        while j < other.entries.len()
            invariant
                self.wf(),
                other.wf(),
                res.wf(),
                j <= other@.len(),
                forall|p: Seq<u8>, n: Seq<u8>|
                    #[trigger] res.qty(p, n) == self.qty(p, n) + prefix_qty(other@, j as int, p, n),
            decreases other@.len() - j,
        {
            let e = &other.entries[j];
            proof {
                assert(other@[j as int] == e@);
                lemma_prefix_step(other@, j as int);
                lemma_qty_at(other@, j as int);
            }
            let cur = res.get(e.policy.as_slice(), e.name.as_slice());
            if cur > u64::MAX - e.quantity {
                proof {
                    assert(self.qty(e.policy@, e.name@) + other.qty(e.policy@, e.name@) > u64::MAX);
                }
                return Err(Error::QuantityOverflow);
            }
            let ghost before = res;
            let _ = res.set(e.policy.as_slice(), e.name.as_slice(), cur + e.quantity);
            proof {
                assert forall|p: Seq<u8>, n: Seq<u8>|
                    #[trigger] res.qty(p, n) == self.qty(p, n) + prefix_qty(other@, j + 1, p, n) by {
                    assert(before.qty(p, n) == self.qty(p, n) + prefix_qty(other@, j as int, p, n));
                }
            }
            j = j + 1;
        }
        proof {
            assert forall|p: Seq<u8>, n: Seq<u8>| self.qty(p, n) + other.qty(p, n) <= u64::MAX by {
                lemma_qty_bounded(res@, p, n);
                assert(res.qty(p, n) == self.qty(p, n) + prefix_qty(other@, other@.len() as int, p, n));
            }
        }
        Ok(res)
    }

    /// The difference under every key, with zero quantities removed;
    /// `QuantityUnderflow` when `other` holds more than `self` under some key.
    pub fn sub(&self, other: &MultiAsset) -> (r: Result<MultiAsset, Error>)
        requires
            self.wf(),
            other.wf(),
        ensures
            (exists|p: Seq<u8>, n: Seq<u8>| other.qty(p, n) > self.qty(p, n)) ==> r == Err::<
                MultiAsset,
                Error,
            >(Error::QuantityUnderflow),
            !(exists|p: Seq<u8>, n: Seq<u8>| other.qty(p, n) > self.qty(p, n)) ==> (r matches Ok(m) && m.wf() && forall|p: Seq<u8>, n: Seq<u8>|
                #[trigger] m.qty(p, n) == self.qty(p, n) - other.qty(p, n)),
    {
        let mut res = self.copy();
        let mut j: usize = 0;
        proof {
            lemma_prefix_ends(other@);
        }
        while j < other.entries.len()
            invariant
                self.wf(),
                other.wf(),
                res.wf(),
                j <= other@.len(),
                forall|p: Seq<u8>, n: Seq<u8>|
                    #[trigger] res.qty(p, n) + prefix_qty(other@, j as int, p, n) == self.qty(p, n),
            decreases other@.len() - j,
        {
            let e = &other.entries[j];
            proof {
                assert(other@[j as int] == e@);
                lemma_prefix_step(other@, j as int);
                lemma_qty_at(other@, j as int);
            }
            let cur = res.get(e.policy.as_slice(), e.name.as_slice());
            if cur < e.quantity {
                proof {
                    assert(other.qty(e.policy@, e.name@) > self.qty(e.policy@, e.name@));
                }
                return Err(Error::QuantityUnderflow);
            }
            let ghost before = res;
            let _ = res.set(e.policy.as_slice(), e.name.as_slice(), cur - e.quantity);
            proof {
                assert forall|p: Seq<u8>, n: Seq<u8>|
                    #[trigger] res.qty(p, n) + prefix_qty(other@, j + 1, p, n) == self.qty(p, n) by {
                    assert(before.qty(p, n) + prefix_qty(other@, j as int, p, n) == self.qty(p, n));
                }
            }
            j = j + 1;
        }
        proof {
            assert forall|p: Seq<u8>, n: Seq<u8>| other.qty(p, n) <= self.qty(p, n) by {
                assert(res.qty(p, n) + prefix_qty(other@, other@.len() as int, p, n) == self.qty(p, n));
            }
        }
        Ok(res)
    }
    /// The canonical bytes of the map, which depend on its quantities alone.
    pub fn canonical_bytes(&self) -> (r: Vec<u8>)
        requires
            self.wf(),
        ensures
            r@ == canonical_spec(self@),
    {
        let ghost s = self@;
        let len = self.entries.len();
        let mut count: u64 = 0;
        let mut i: usize = 0;
        while i < len
            invariant
                len == s.len(),
                s == self@,
                i <= len,
                count as nat + policy_count(s, i as int) == policy_count(s, 0),
                count <= i,
            decreases len - i,
        {
            if i == 0 || lex_compare(
                self.entries[i].policy.as_slice(),
                self.entries[i - 1].policy.as_slice(),
            ) != 0 {
                count = count + 1;
            }
            i = i + 1;
        }
        let mut out: Vec<u8> = Vec::new();
        push_head(&mut out, 5, count);
        let ghost target = canonical_spec(s);
        i = 0;
        while i < len
            invariant
                len == s.len(),
                s == self@,
                entries_wf(s),
                i <= len,
                out@ + entries_bytes(s, i as int) == target,
            decreases len - i,
        {
            let e = &self.entries[i];
            let ghost before = out@;
            let opens = i == 0 || lex_compare(
                e.policy.as_slice(),
                self.entries[i - 1].policy.as_slice(),
            ) != 0;
            if opens {
                let mut k: usize = i + 1;
                while k < len && lex_compare(
                    self.entries[k].policy.as_slice(),
                    e.policy.as_slice(),
                ) == 0
                    invariant
                        len == s.len(),
                        s == self@,
                        i < k <= len,
                        e@ == s[i as int],
                        forall|m: int| i <= m < k ==> (#[trigger] s[m]).0 == s[i as int].0,
                        run_end(s, i as int) == run_end(s, k - 1),
                    decreases len - k,
                {
                    k = k + 1;
                }
                push_head(&mut out, 2, e.policy.len() as u64);
                append_bytes(&mut out, e.policy.as_slice());
                push_head(&mut out, 5, (k - i) as u64);
            }
            push_head(&mut out, 2, e.name.len() as u64);
            append_bytes(&mut out, e.name.as_slice());
            push_head(&mut out, 0, e.quantity);
            proof {
                assert(out@ + entries_bytes(s, i + 1) =~= before + entries_bytes(s, i as int));
            }
            i = i + 1;
        }
        proof {
            assert(out@ =~= target);
        }
        out
    }
}

/// Two maps that hold the same quantity under every key have the same
/// entries, and so the same canonical bytes, in whatever order they were
/// built.
pub proof fn lemma_canonical_bytes_order_independent(a: MultiAsset, b: MultiAsset)
    requires
        a.wf(),
        b.wf(),
        forall|p: Seq<u8>, n: Seq<u8>| #[trigger] a.qty(p, n) == b.qty(p, n),
    ensures
        a@ == b@,
        canonical_spec(a@) == canonical_spec(b@),
{
    assert forall|p: Seq<u8>, n: Seq<u8>| #[trigger] qty_of(a@, p, n) == qty_of(b@, p, n) by {
        assert(a.qty(p, n) == b.qty(p, n));
    }
    lemma_same_quantities_same_entries(a@, b@);
}

/// Subtracting `b` from the sum of `a` and `b` gives `a` back: it cannot
/// underflow, and the result has the entries of `a`.
pub proof fn lemma_sub_after_add(a: MultiAsset, b: MultiAsset, sum: MultiAsset, diff: MultiAsset)
    requires
        a.wf(),
        b.wf(),
        sum.wf(),
        diff.wf(),
        forall|p: Seq<u8>, n: Seq<u8>| #[trigger] sum.qty(p, n) == a.qty(p, n) + b.qty(p, n),
        forall|p: Seq<u8>, n: Seq<u8>| #[trigger] diff.qty(p, n) == sum.qty(p, n) - b.qty(p, n),
    ensures
        forall|p: Seq<u8>, n: Seq<u8>| #[trigger] b.qty(p, n) <= sum.qty(p, n),
        diff@ == a@,
{
    assert forall|p: Seq<u8>, n: Seq<u8>| #[trigger] qty_of(diff@, p, n) == qty_of(a@, p, n) by {
        assert(diff.qty(p, n) == sum.qty(p, n) - b.qty(p, n));
        assert(sum.qty(p, n) == a.qty(p, n) + b.qty(p, n));
    }
    lemma_same_quantities_same_entries(diff@, a@);
}

} // verus!
