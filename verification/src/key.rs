//! User keys and the points between them at which tombstones change.

use vstd::prelude::*;

verus! {

/// Identifies a logical table.
pub type TableId = u32;

/// Lexicographic `<=` on byte strings.
pub open spec fn bytes_le(a: Seq<u8>, b: Seq<u8>) -> bool
    decreases a.len(),
{
    if a.len() == 0 {
        true
    } else if b.len() == 0 {
        false
    } else if a[0] != b[0] {
        a[0] < b[0]
    } else {
        bytes_le(a.drop_first(), b.drop_first())
    }
}

/// `bytes_le` is reflexive.
pub proof fn lemma_bytes_le_refl(a: Seq<u8>)
    ensures
        bytes_le(a, a),
    decreases a.len(),
{
    if a.len() > 0 {
        lemma_bytes_le_refl(a.drop_first());
    }
}

/// `bytes_le` is total.
pub proof fn lemma_bytes_le_total(a: Seq<u8>, b: Seq<u8>)
    ensures
        bytes_le(a, b) || bytes_le(b, a),
    decreases a.len(),
{
    if a.len() > 0 && b.len() > 0 && a[0] == b[0] {
        lemma_bytes_le_total(a.drop_first(), b.drop_first());
    }
}

/// `bytes_le` is antisymmetric.
pub proof fn lemma_bytes_le_antisym(a: Seq<u8>, b: Seq<u8>)
    requires
        bytes_le(a, b),
        bytes_le(b, a),
    ensures
        a == b,
    decreases a.len(),
{
    if a.len() == 0 || b.len() == 0 {
        assert(a =~= b);
    } else {
        lemma_bytes_le_antisym(a.drop_first(), b.drop_first());
        assert(a =~= seq![a[0]] + a.drop_first());
        assert(b =~= seq![b[0]] + b.drop_first());
    }
}

/// `bytes_le` is transitive.
pub proof fn lemma_bytes_le_trans(a: Seq<u8>, b: Seq<u8>, c: Seq<u8>)
    requires
        bytes_le(a, b),
        bytes_le(b, c),
    ensures
        bytes_le(a, c),
    decreases a.len(),
{
    if a.len() > 0 && b.len() > 0 && c.len() > 0 && a[0] == b[0] && b[0] == c[0] {
        lemma_bytes_le_trans(a.drop_first(), b.drop_first(), c.drop_first());
    }
}

/// Lexicographic `<=` on byte slices.
pub fn bytes_le_exec(a: &[u8], b: &[u8]) -> (r: bool)
    ensures
        r == bytes_le(a@, b@),
{
    let mut i: usize = 0;
    proof {
        assert(a@.skip(0) =~= a@);
        assert(b@.skip(0) =~= b@);
    }
    while i < a.len() && i < b.len()
        invariant
            i <= a.len(),
            i <= b.len(),
            bytes_le(a@, b@) == bytes_le(a@.skip(i as int), b@.skip(i as int)),
        decreases a.len() - i,
    {
        proof {
            assert(a@.skip(i as int).drop_first() =~= a@.skip(i + 1));
            assert(b@.skip(i as int).drop_first() =~= b@.skip(i + 1));
        }
        if a[i] != b[i] {
            return a[i] < b[i];
        }
        i = i + 1;
    }
    i == a.len()
}

/// Equality of byte slices.
pub fn bytes_eq_exec(a: &[u8], b: &[u8]) -> (r: bool)
    ensures
        r == (a@ == b@),
{
    if a.len() != b.len() {
        return false;
    }
    let mut i: usize = 0;
    while i < a.len()
        invariant
            i <= a.len(),
            a.len() == b.len(),
            forall|j: int| 0 <= j < i ==> a@[j] == b@[j],
        decreases a.len() - i,
    {
        if a[i] != b[i] {
            return false;
        }
        i = i + 1;
    }
    proof {
        assert(a@ =~= b@);
    }
    true
}

/// A copy of a byte slice.
pub fn bytes_to_vec(a: &[u8]) -> (r: Vec<u8>)
    ensures
        r@ == a@,
{
    let mut r: Vec<u8> = Vec::new();
    let mut i: usize = 0;
    while i < a.len()
        invariant
            i <= a.len(),
            r@ == a@.take(i as int),
        decreases a.len() - i,
    {
        r.push(a[i]);
        i = i + 1;
        proof {
            assert(r@ =~= a@.take(i as int));
        }
    }
    proof {
        assert(a@.take(a.len() as int) =~= a@);
    }
    r
}

/// What a `UserKey` stands for: a table and a key within it.
pub struct UserKeyView {
    pub table_id: TableId,
    pub table_key: Seq<u8>,
}

/// A key as users of a table see it, without the epoch.
#[derive(Debug, PartialEq, Eq)]
pub struct UserKey {
    pub table_id: TableId,
    pub table_key: Vec<u8>,
}

impl View for UserKey {
    type V = UserKeyView;

    open spec fn view(&self) -> UserKeyView {
        UserKeyView { table_id: self.table_id, table_key: self.table_key@ }
    }
}

impl Clone for UserKey {
    fn clone(&self) -> (r: Self)
        ensures
            r@ == self@,
    {
        UserKey { table_id: self.table_id, table_key: bytes_to_vec(self.table_key.as_slice()) }
    }
}

impl UserKeyView {
    /// The order of user keys: by table first, then by the key's bytes.
    pub open spec fn le(self, other: UserKeyView) -> bool {
        self.table_id < other.table_id || (self.table_id == other.table_id && bytes_le(
            self.table_key,
            other.table_key,
        ))
    }
}

impl UserKey {
    pub fn new(table_id: TableId, table_key: Vec<u8>) -> (r: Self)
        ensures
            r@ == (UserKeyView { table_id, table_key: table_key@ }),
    {
        UserKey { table_id, table_key }
    }

    /// Whether the key holds no bytes.
    pub fn is_empty(&self) -> (r: bool)
        ensures
            r == (self@.table_key.len() == 0),
    {
        self.table_key.len() == 0
    }

    /// Whether `self` orders at or before `other`.
    pub fn le(&self, other: &UserKey) -> (r: bool)
        ensures
            r == self@.le(other@),
    {
        if self.table_id != other.table_id {
            self.table_id < other.table_id
        } else {
            bytes_le_exec(self.table_key.as_slice(), other.table_key.as_slice())
        }
    }

    /// Whether the two keys name the same table and hold the same bytes.
    pub fn same(&self, other: &UserKey) -> (r: bool)
        ensures
            r == (self@ == other@),
    {
        self.table_id == other.table_id && bytes_eq_exec(
            self.table_key.as_slice(),
            other.table_key.as_slice(),
        )
    }
}

/// What a `PointRange` stands for.
pub struct PointRangeView {
    pub left_user_key: UserKeyView,
    pub is_exclude_left_key: bool,
}

/// A point on the key axis at which the tombstones in effect may change:
/// either a user key itself, or, with `is_exclude_left_key`, the position
/// just after it.
#[derive(Debug, PartialEq, Eq)]
pub struct PointRange {
    pub left_user_key: UserKey,
    pub is_exclude_left_key: bool,
}

impl View for PointRange {
    type V = PointRangeView;

    open spec fn view(&self) -> PointRangeView {
        PointRangeView {
            left_user_key: self.left_user_key@,
            is_exclude_left_key: self.is_exclude_left_key,
        }
    }
}

impl Clone for PointRange {
    fn clone(&self) -> (r: Self)
        ensures
            r@ == self@,
    {
        PointRange {
            left_user_key: self.left_user_key.clone(),
            is_exclude_left_key: self.is_exclude_left_key,
        }
    }
}

impl PointRangeView {
    /// The order of points: by user key first; at one user key, the key
    /// itself comes before the position just after it.
    pub open spec fn le(self, other: PointRangeView) -> bool {
        if self.left_user_key == other.left_user_key {
            !self.is_exclude_left_key || other.is_exclude_left_key
        } else {
            self.left_user_key.le(other.left_user_key)
        }
    }

    /// The point that stands for `user_key` itself.
    pub open spec fn at(user_key: UserKeyView) -> PointRangeView {
        PointRangeView { left_user_key: user_key, is_exclude_left_key: false }
    }
}

impl PointRange {
    pub fn from_user_key(left_user_key: UserKey, is_exclude_left_key: bool) -> (r: Self)
        ensures
            r@ == (PointRangeView { left_user_key: left_user_key@, is_exclude_left_key }),
    {
        PointRange { left_user_key, is_exclude_left_key }
    }

    /// Whether the point's user key holds no bytes.
    pub fn is_empty(&self) -> (r: bool)
        ensures
            r == (self@.left_user_key.table_key.len() == 0),
    {
        self.left_user_key.is_empty()
    }

    /// Whether `self` orders at or before the point that `user_key` and
    /// `is_exclude_left_key` make up.
    pub fn le_point(&self, user_key: &UserKey, is_exclude_left_key: bool) -> (r: bool)
        ensures
            r == self@.le(PointRangeView { left_user_key: user_key@, is_exclude_left_key }),
    {
        if self.left_user_key.same(user_key) {
            !self.is_exclude_left_key || is_exclude_left_key
        } else {
            self.left_user_key.le(user_key)
        }
    }

    /// Whether `self` orders at or after the point that `user_key` and
    /// `is_exclude_left_key` make up.
    pub fn ge_point(&self, user_key: &UserKey, is_exclude_left_key: bool) -> (r: bool)
        ensures
            r == (PointRangeView { left_user_key: user_key@, is_exclude_left_key }).le(self@),
    {
        if self.left_user_key.same(user_key) {
            !is_exclude_left_key || self.is_exclude_left_key
        } else {
            user_key.le(&self.left_user_key)
        }
    }

    /// Whether `self` orders at or before `other`.
    pub fn le(&self, other: &PointRange) -> (r: bool)
        ensures
            r == self@.le(other@),
    {
        self.le_point(&other.left_user_key, other.is_exclude_left_key)
    }

    /// Whether `self` orders at or after `other`.
    pub fn ge(&self, other: &PointRange) -> (r: bool)
        ensures
            r == other@.le(self@),
    {
        other.le(self)
    }

    /// Whether the two points are the same.
    pub fn same(&self, other: &PointRange) -> (r: bool)
        ensures
            r == (self@ == other@),
    {
        self.left_user_key.same(&other.left_user_key) && self.is_exclude_left_key
            == other.is_exclude_left_key
    }
}

/// One end of a range of keys within a table.
#[derive(Debug, PartialEq, Eq)]
pub enum KeyBound {
    Included(Vec<u8>),
    Excluded(Vec<u8>),
    Unbounded,
}

/// What a `KeyBound` stands for.
pub enum KeyBoundView {
    Included(Seq<u8>),
    Excluded(Seq<u8>),
    Unbounded,
}

impl View for KeyBound {
    type V = KeyBoundView;

    open spec fn view(&self) -> KeyBoundView {
        match self {
            KeyBound::Included(k) => KeyBoundView::Included(k@),
            KeyBound::Excluded(k) => KeyBoundView::Excluded(k@),
            KeyBound::Unbounded => KeyBoundView::Unbounded,
        }
    }
}

/// The order of points is reflexive.
pub proof fn lemma_point_le_refl(a: PointRangeView)
    ensures
        a.le(a),
{
}

/// The order of points is total.
pub proof fn lemma_point_le_total(a: PointRangeView, b: PointRangeView)
    ensures
        a.le(b) || b.le(a),
{
    lemma_bytes_le_total(a.left_user_key.table_key, b.left_user_key.table_key);
}

/// The order of points is antisymmetric.
pub proof fn lemma_point_le_antisym(a: PointRangeView, b: PointRangeView)
    requires
        a.le(b),
        b.le(a),
    ensures
        a == b,
{
    if a.left_user_key != b.left_user_key {
        lemma_bytes_le_antisym(a.left_user_key.table_key, b.left_user_key.table_key);
    }
}

/// The order of points is transitive.
pub proof fn lemma_point_le_trans(a: PointRangeView, b: PointRangeView, c: PointRangeView)
    requires
        a.le(b),
        b.le(c),
    ensures
        a.le(c),
{
    let ka = a.left_user_key;
    let kb = b.left_user_key;
    let kc = c.left_user_key;
    if ka.table_id == kb.table_id && kb.table_id == kc.table_id {
        lemma_bytes_le_refl(ka.table_key);
        lemma_bytes_le_refl(kb.table_key);
        if ka != kb && kb != kc {
            lemma_bytes_le_trans(ka.table_key, kb.table_key, kc.table_key);
            if ka == kc {
                lemma_bytes_le_antisym(ka.table_key, kb.table_key);
            }
        }
    }
}

} // verus!
