//! One scanned array element (`Score`) and the ascending, unique-by-id
//! collection that holds them (`Scores`).
//!
//! A `Score` owns a verbatim sub-range of the scanned buffer together with
//! the identifier found in the element's own top-level scope. Identity and
//! order are defined by the identifier alone; the bytes are payload.

use vstd::prelude::*;

use crate::buf::binary_message;
use crate::buf::bytes_view;
use crate::buf::clone_bytes;
use crate::buf::empty_bytes;
use bytes::Bytes;
use core::cmp::Ordering;
use tokio_tungstenite::tungstenite::Message;

verus! {

/// The mathematical value of a `Score`: its identifier and the bytes it
/// carries.
#[verifier::ext_equal]
pub ghost struct ScoreView {
    pub id: u64,
    pub bytes: Seq<u8>,
}

/// One array element: a verbatim byte range of the scanned buffer plus the
/// identifier extracted from the element's own top-level scope.
#[derive(Debug)]
pub struct Score {
    bytes: Bytes,
    pub id: u64,
}

impl View for Score {
    type V = ScoreView;

    closed spec fn view(&self) -> ScoreView {
        ScoreView { id: self.id, bytes: bytes_view(self.bytes) }
    }
}

impl Score {
    /// A pure comparison key: an element that holds only an identifier and
    /// an empty byte range.
    pub fn only_id(id: u64) -> (r: Self)
        ensures
            r@ == (ScoreView { id, bytes: Seq::<u8>::empty() }),
    {
        Score { bytes: empty_bytes(), id }
    }

    pub(crate) fn from_parts(id: u64, bytes: Bytes) -> (r: Self)
        ensures
            r@ == (ScoreView { id, bytes: bytes_view(bytes) }),
    {
        Score { bytes, id }
    }

    /// The element's identifier.
    pub fn id(&self) -> (r: u64)
        ensures
            r == self@.id,
    {
        self.id
    }

    /// The element's exact bytes, framed as a binary wire message with no
    /// re-encoding.
    pub fn as_message(&self) -> (r: Message)
        ensures
            crate::buf::message_view(r) == self@.bytes,
            crate::buf::message_is_binary(r),
    {
        binary_message(clone_bytes(&self.bytes))
    }
}

impl PartialEq for Score {
    /// Equality is defined by the identifier alone; the bytes are payload.
    fn eq(&self, other: &Self) -> (r: bool) {
        self.id == other.id
    }
}

impl vstd::std_specs::cmp::PartialEqSpecImpl for Score {
    open spec fn obeys_eq_spec() -> bool {
        true
    }

    open spec fn eq_spec(&self, other: &Score) -> bool {
        self@.id == other@.id
    }
}

impl Eq for Score {}

impl PartialOrd for Score {
    /// Order is total and defined by the identifier alone.
    fn partial_cmp(&self, other: &Self) -> (r: Option<Ordering>) {
        if self.id < other.id {
            Some(Ordering::Less)
        } else if self.id == other.id {
            Some(Ordering::Equal)
        } else {
            Some(Ordering::Greater)
        }
    }
}

impl vstd::std_specs::cmp::PartialOrdSpecImpl for Score {
    open spec fn obeys_partial_cmp_spec() -> bool {
        true
    }

    open spec fn partial_cmp_spec(&self, other: &Score) -> Option<Ordering> {
        if self@.id < other@.id {
            Some(Ordering::Less)
        } else if self@.id == other@.id {
            Some(Ordering::Equal)
        } else {
            Some(Ordering::Greater)
        }
    }
}

/// The members are in strictly ascending identifier order; in particular no
/// two of them share an identifier.
pub open spec fn sorted_unique(s: Seq<ScoreView>) -> bool {
    forall|i: int, j: int| 0 <= i < j < s.len() ==> s[i].id < s[j].id
}

/// Where an insertion into an ascending unique sequence lands: before the
/// first strictly larger identifier. A member with the same identifier is
/// kept and the new value is discarded.
pub open spec fn spec_insert(s: Seq<ScoreView>, v: ScoreView) -> Seq<ScoreView>
    decreases s.len(),
{
    if s.len() == 0 {
        seq![v]
    } else if v.id < s[0].id {
        seq![v] + s
    } else if v.id == s[0].id {
        s
    } else {
        seq![s[0]] + spec_insert(s.drop_first(), v)
    }
}

/// Every element of `es`, inserted in order under the dedup policy.
pub open spec fn spec_insert_all(s: Seq<ScoreView>, es: Seq<ScoreView>) -> Seq<ScoreView>
    decreases es.len(),
{
    if es.len() == 0 {
        s
    } else {
        spec_insert_all(spec_insert(s, es[0]), es.drop_first())
    }
}

/// Ascending-ordered, unique-by-identifier collection of elements. An
/// insertion whose identifier is already present is discarded; the member
/// first stored is retained unchanged.
#[derive(Debug)]
pub struct Scores {
    items: Vec<Score>,
}

impl View for Scores {
    type V = Seq<ScoreView>;

    closed spec fn view(&self) -> Seq<ScoreView> {
        self.items@.map_values(|s: Score| s@)
    }
}

impl Scores {
    /// The collection's invariant: strictly ascending identifiers.
    pub open spec fn wf(&self) -> bool {
        sorted_unique(self@)
    }

    /// An empty collection.
    pub fn new() -> (r: Self)
        ensures
            r@ == Seq::<ScoreView>::empty(),
            r.wf(),
    {
        let r = Scores { items: Vec::new() };
        proof {
            assert(r@ =~= Seq::<ScoreView>::empty());
        }
        r
    }

    /// How many elements the collection holds.
    pub fn len(&self) -> (r: usize)
        ensures
            r == self@.len(),
    {
        self.items.len()
    }

    /// The member at rank `i` in ascending identifier order.
    pub fn get(&self, i: usize) -> (r: &Score)
        requires
            i < self@.len(),
        ensures
            r@ == self@[i as int],
    {
        &self.items[i]
    }

    /// Inserts `s` at its place in the ascending order; if a member with
    /// the same identifier is already present, `s` is discarded and the
    /// present member is kept unchanged.
    pub fn insert(&mut self, s: Score)
        requires
            old(self).wf(),
        ensures
            final(self)@ == spec_insert(old(self)@, s@),
            final(self).wf(),
    {
        proof {
            lemma_spec_insert_sorted(self@, s@);
        }
        let ghost orig: Seq<ScoreView> = self@;
        let mut i: usize = 0;
        while i < self.items.len() && self.items[i].id < s.id
            invariant
                0 <= i <= self.items.len(),
                self@ == orig,
                self.items@.map_values(|x: Score| x@) == orig,
                forall|j: int| 0 <= j < i ==> orig[j].id < s@.id,
                sorted_unique(orig),
            decreases self.items@.len() - i,
        {
            i = i + 1;
        }
        if i < self.items.len() && self.items[i].id == s.id {
            proof {
                lemma_spec_insert_at(orig, s@, i as int);
                assert(spec_insert(orig, s@) =~= orig);
            }
        } else {
            proof {
                lemma_spec_insert_at(orig, s@, i as int);
            }
            self.items.insert(i, s);
            proof {
                assert(self.items@.map_values(|x: Score| x@) =~= orig.insert(
                    i as int,
                    s@,
                ));
            }
        }
    }
}

/// `spec_insert` is the identity once `i` leading members have strictly
/// smaller identifiers and the member at `i` (if any) does not: the result
/// is the sequence with `v` placed at `i`, or the unchanged sequence when
/// the identifier at `i` is equal.
proof fn lemma_spec_insert_at(s: Seq<ScoreView>, v: ScoreView, i: int)
    requires
        0 <= i <= s.len(),
        forall|j: int| 0 <= j < i ==> s[j].id < v.id,
        i < s.len() ==> s[i].id >= v.id,
    ensures
        i < s.len() && s[i].id == v.id ==> spec_insert(s, v) == s,
        (i == s.len() || s[i].id > v.id) ==> spec_insert(s, v) =~= s.insert(i, v),
    decreases s.len(),
{
    if s.len() == 0 {
        assert(spec_insert(s, v) =~= s.insert(0, v));
    } else if i == 0 {
        if s[0].id > v.id {
            assert(spec_insert(s, v) =~= s.insert(0, v));
        }
    } else {
        lemma_spec_insert_at(s.drop_first(), v, i - 1);
        if i < s.len() && s[i].id == v.id {
            assert(spec_insert(s, v) =~= s);
        } else {
            assert(s.drop_first().insert(i - 1, v) =~= s.insert(i, v).drop_first());
            assert(spec_insert(s, v) =~= s.insert(i, v));
        }
    }
}

/// Insertion keeps the collection ascending and unique.
pub proof fn lemma_spec_insert_sorted(s: Seq<ScoreView>, v: ScoreView)
    requires
        sorted_unique(s),
    ensures
        sorted_unique(spec_insert(s, v)),
    decreases s.len(),
{
    if s.len() == 0 {
    } else if v.id < s[0].id {
    } else if v.id == s[0].id {
    } else {
        assert(sorted_unique(s.drop_first()));
        lemma_spec_insert_sorted(s.drop_first(), v);
        let t = spec_insert(s.drop_first(), v);
        assert forall|k: int| 0 <= k < t.len() implies t[k].id > s[0].id by {
            lemma_spec_insert_members(s.drop_first(), v, k);
        }
    }
}

/// Every member of `spec_insert(s, v)` is `v` or a member of `s`.
proof fn lemma_spec_insert_members(s: Seq<ScoreView>, v: ScoreView, k: int)
    requires
        0 <= k < spec_insert(s, v).len(),
    ensures
        spec_insert(s, v)[k] == v || exists|j: int| 0 <= j < s.len() && s[j] == spec_insert(s, v)[k],
    decreases s.len(),
{
    if s.len() == 0 {
    } else if v.id < s[0].id {
    } else if v.id == s[0].id {
    } else {
        if k > 0 {
            lemma_spec_insert_members(s.drop_first(), v, k - 1);
            if spec_insert(s, v)[k] != v {
                let j = choose|j: int|
                    0 <= j < s.drop_first().len() && s.drop_first()[j] == spec_insert(
                        s.drop_first(),
                        v,
                    )[k - 1];
                assert(s[j + 1] == spec_insert(s, v)[k]);
            }
        }
    }
}

/// When no member of `s` carries `v.id`, the insertion places `v` itself.
proof fn lemma_spec_insert_adds(s: Seq<ScoreView>, v: ScoreView)
    requires
        forall|j: int| 0 <= j < s.len() ==> s[j].id != v.id,
    ensures
        exists|m: int| 0 <= m < spec_insert(s, v).len() && spec_insert(s, v)[m] == v,
    decreases s.len(),
{
    if s.len() == 0 {
        assert(spec_insert(s, v)[0] == v);
    } else if v.id < s[0].id {
        assert(spec_insert(s, v)[0] == v);
    } else {
        assert(s[0].id != v.id);
        assert(forall|j: int| 0 <= j < s.drop_first().len() ==> s.drop_first()[j].id != v.id);
        lemma_spec_insert_adds(s.drop_first(), v);
        let m = choose|m: int|
            0 <= m < spec_insert(s.drop_first(), v).len() && spec_insert(s.drop_first(), v)[m]
                == v;
        assert(spec_insert(s, v)[m + 1] == v);
    }
}

/// Every member of `s` is still a member after an insertion.
proof fn lemma_spec_insert_superset(s: Seq<ScoreView>, v: ScoreView, j: int)
    requires
        0 <= j < s.len(),
    ensures
        exists|m: int| 0 <= m < spec_insert(s, v).len() && spec_insert(s, v)[m] == s[j],
    decreases s.len(),
{
    if v.id < s[0].id {
        assert(spec_insert(s, v)[j + 1] == s[j]);
    } else if v.id == s[0].id {
        assert(spec_insert(s, v)[j] == s[j]);
    } else if j == 0 {
        assert(spec_insert(s, v)[0] == s[0]);
    } else {
        lemma_spec_insert_superset(s.drop_first(), v, j - 1);
        let m = choose|m: int|
            0 <= m < spec_insert(s.drop_first(), v).len() && spec_insert(s.drop_first(), v)[m]
                == s.drop_first()[j - 1];
        assert(spec_insert(s, v)[m + 1] == s[j]);
    }
}

/// Batch insertion keeps the collection ascending and unique.
pub proof fn lemma_insert_all_sorted(s: Seq<ScoreView>, es: Seq<ScoreView>)
    requires
        sorted_unique(s),
    ensures
        sorted_unique(spec_insert_all(s, es)),
    decreases es.len(),
{
    if es.len() > 0 {
        lemma_spec_insert_sorted(s, es[0]);
        lemma_insert_all_sorted(spec_insert(s, es[0]), es.drop_first());
    }
}

/// A member already stored survives every later batch insertion, itself,
/// with its bytes untouched.
proof fn lemma_insert_all_preserves_member(s: Seq<ScoreView>, es: Seq<ScoreView>, m0: int)
    requires
        sorted_unique(s),
        0 <= m0 < s.len(),
    ensures
        exists|m: int|
            0 <= m < spec_insert_all(s, es).len() && spec_insert_all(s, es)[m] == s[m0],
    decreases es.len(),
{
    if es.len() == 0 {
        assert(spec_insert_all(s, es)[m0] == s[m0]);
    } else {
        let s2 = spec_insert(s, es[0]);
        lemma_spec_insert_sorted(s, es[0]);
        assert(spec_insert_all(s, es) == spec_insert_all(s2, es.drop_first()));
        if es[0].id == s[m0].id {
            lemma_insert_keeps_existing(s, es[0], m0);
            assert(s2[m0] == s[m0]);
            lemma_insert_all_preserves_member(s2, es.drop_first(), m0);
        } else {
            lemma_spec_insert_superset(s, es[0], m0);
            let m1 = choose|m: int| 0 <= m < s2.len() && s2[m] == s[m0];
            lemma_insert_all_preserves_member(s2, es.drop_first(), m1);
        }
    }
}

/// When several elements of one batch share an identifier, the one that
/// comes first is the one retained, bytes untouched, and the collection
/// ends up with exactly one member carrying that identifier (uniqueness
/// by `lemma_insert_all_sorted`). `k1` is the first position in `es`
/// whose identifier is `es[k1].id`, an identifier no starting member
/// carries.
pub proof fn lemma_first_of_id_retained(s: Seq<ScoreView>, es: Seq<ScoreView>, k1: int)
    requires
        sorted_unique(s),
        0 <= k1 < es.len(),
        forall|j: int| 0 <= j < s.len() ==> s[j].id != es[k1].id,
        forall|j: int| 0 <= j < k1 ==> es[j].id != es[k1].id,
    ensures
        exists|m: int|
            0 <= m < spec_insert_all(s, es).len() && spec_insert_all(s, es)[m] == es[k1],
    decreases k1,
{
    let s2 = spec_insert(s, es[0]);
    lemma_spec_insert_sorted(s, es[0]);
    assert(spec_insert_all(s, es) == spec_insert_all(s2, es.drop_first()));
    if k1 == 0 {
        lemma_spec_insert_adds(s, es[0]);
        let m1 = choose|m: int| 0 <= m < s2.len() && s2[m] == es[0];
        lemma_insert_all_preserves_member(s2, es.drop_first(), m1);
    } else {
        assert(es[0].id != es[k1].id);
        assert forall|j: int| 0 <= j < s2.len() implies s2[j].id != es[k1].id by {
            lemma_spec_insert_members(s, es[0], j);
        }
        assert(es.drop_first()[k1 - 1] == es[k1]);
        lemma_first_of_id_retained(s2, es.drop_first(), k1 - 1);
    }
}

/// Appending one more element to a batch insertion is one more insertion.
pub proof fn lemma_insert_all_push(s: Seq<ScoreView>, es: Seq<ScoreView>, v: ScoreView)
    ensures
        spec_insert_all(s, es.push(v)) == spec_insert(spec_insert_all(s, es), v),
    decreases es.len(),
{
    if es.len() == 0 {
        assert(es.push(v).drop_first() =~= Seq::<ScoreView>::empty());
        assert(es.push(v)[0] == v);
        assert(spec_insert_all(s, es.push(v)) == spec_insert_all(
            spec_insert(s, v),
            Seq::<ScoreView>::empty(),
        ));
        assert(spec_insert_all(spec_insert(s, v), Seq::<ScoreView>::empty()) == spec_insert(s, v));
        assert(spec_insert_all(s, es) == s);
    } else {
        assert(es.push(v)[0] == es[0]);
        assert(es.push(v).drop_first() =~= es.drop_first().push(v));
        assert(spec_insert_all(s, es.push(v)) == spec_insert_all(
            spec_insert(s, es[0]),
            es.drop_first().push(v),
        ));
        lemma_insert_all_push(spec_insert(s, es[0]), es.drop_first(), v);
        assert(spec_insert_all(s, es) == spec_insert_all(spec_insert(s, es[0]), es.drop_first()));
    }
}

/// When some member of `s` already carries `v.id`, the insertion of `v`
/// changes nothing: the member first stored survives, with its bytes, and
/// the newcomer is discarded.
pub proof fn lemma_insert_keeps_existing(s: Seq<ScoreView>, v: ScoreView, k: int)
    requires
        sorted_unique(s),
        0 <= k < s.len(),
        s[k].id == v.id,
    ensures
        spec_insert(s, v) == s,
    decreases s.len(),
{
    if s.len() > 0 {
        if v.id == s[0].id {
        } else if v.id < s[0].id {
            assert(s[k].id >= s[0].id);
        } else {
            assert(s.drop_first()[k - 1].id == v.id);
            assert(sorted_unique(s.drop_first()));
            lemma_insert_keeps_existing(s.drop_first(), v, k - 1);
            assert(spec_insert(s, v) =~= s);
        }
    }
}

} // verus!
