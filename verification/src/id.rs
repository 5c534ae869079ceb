//! Identity newtypes.
//!
//! Every actor kind gets its own newtype, so a `WitnessId` cannot be
//! passed where a `SubjectId` is expected. Name ids wrap strings and are
//! ordered by their UTF-8 bytes; hash ids wrap 32-byte digests and are
//! ordered by those bytes.

use crate::collections::OrderedKey;
use crate::order::{bytes_equal, compare_bytes};
use vstd::prelude::*;
use vstd::utf8::encode_utf8;

verus! {

/// A stable referent whose membership is under discussion.
#[derive(Debug, Clone, PartialEq, Eq, PartialOrd, Ord, Hash)]
pub struct SubjectId(String);

impl View for SubjectId {
    type V = Seq<char>;

    closed spec fn view(&self) -> Seq<char> {
        self.0@
    }
}

impl SubjectId {
    pub fn new(name: &str) -> (r: Self)
        ensures
            r@ == name@,
    {
        SubjectId(name.to_owned())
    }

    pub fn from_string(name: String) -> (r: Self)
        ensures
            r@ == name@,
    {
        SubjectId(name)
    }

    pub fn as_str(&self) -> (r: &str)
        ensures
            r@ == self@,
    {
        self.0.as_str()
    }

    pub fn same(&self, other: &Self) -> (r: bool)
        ensures
            r == (self@ == other@),
    {
        self.0 == other.0
    }

    pub fn duplicate(&self) -> (r: Self)
        ensures
            r@ == self@,
    {
        SubjectId(self.0.clone())
    }
}

impl OrderedKey for SubjectId {
    open spec fn order_bytes(k: Seq<char>) -> Seq<u8> {
        encode_utf8(k)
    }

    proof fn lemma_order_bytes_injective(a: Seq<char>, b: Seq<char>) {
        vstd::utf8::encode_utf8_decode_utf8(a);
        vstd::utf8::encode_utf8_decode_utf8(b);
    }

    fn compare_key(&self, other: &Self) -> (r: i8) {
        compare_bytes(self.0.as_str().as_bytes(), other.0.as_str().as_bytes())
    }

    fn copy_key(&self) -> (r: Self) {
        self.duplicate()
    }
}

/// An actor producing observations and witness records.
#[derive(Debug, Clone, PartialEq, Eq, PartialOrd, Ord, Hash)]
pub struct WitnessId(String);

impl View for WitnessId {
    type V = Seq<char>;

    closed spec fn view(&self) -> Seq<char> {
        self.0@
    }
}

impl WitnessId {
    pub fn new(name: &str) -> (r: Self)
        ensures
            r@ == name@,
    {
        WitnessId(name.to_owned())
    }

    pub fn from_string(name: String) -> (r: Self)
        ensures
            r@ == name@,
    {
        WitnessId(name)
    }

    pub fn as_str(&self) -> (r: &str)
        ensures
            r@ == self@,
    {
        self.0.as_str()
    }

    pub fn same(&self, other: &Self) -> (r: bool)
        ensures
            r == (self@ == other@),
    {
        self.0 == other.0
    }

    pub fn duplicate(&self) -> (r: Self)
        ensures
            r@ == self@,
    {
        WitnessId(self.0.clone())
    }
}

impl OrderedKey for WitnessId {
    open spec fn order_bytes(k: Seq<char>) -> Seq<u8> {
        encode_utf8(k)
    }

    proof fn lemma_order_bytes_injective(a: Seq<char>, b: Seq<char>) {
        vstd::utf8::encode_utf8_decode_utf8(a);
        vstd::utf8::encode_utf8_decode_utf8(b);
    }

    fn compare_key(&self, other: &Self) -> (r: i8) {
        compare_bytes(self.0.as_str().as_bytes(), other.0.as_str().as_bytes())
    }

    fn copy_key(&self) -> (r: Self) {
        self.duplicate()
    }
}

/// A candidate for rank-based selection (fanout, rendezvous, witness sets).
#[derive(Debug, Clone, PartialEq, Eq, PartialOrd, Ord, Hash)]
pub struct PeerId(String);

impl View for PeerId {
    type V = Seq<char>;

    closed spec fn view(&self) -> Seq<char> {
        self.0@
    }
}

impl PeerId {
    pub fn new(name: &str) -> (r: Self)
        ensures
            r@ == name@,
    {
        PeerId(name.to_owned())
    }

    pub fn from_string(name: String) -> (r: Self)
        ensures
            r@ == name@,
    {
        PeerId(name)
    }

    pub fn as_str(&self) -> (r: &str)
        ensures
            r@ == self@,
    {
        self.0.as_str()
    }

    pub fn same(&self, other: &Self) -> (r: bool)
        ensures
            r == (self@ == other@),
    {
        self.0 == other.0
    }

    pub fn duplicate(&self) -> (r: Self)
        ensures
            r@ == self@,
    {
        PeerId(self.0.clone())
    }
}

impl OrderedKey for PeerId {
    open spec fn order_bytes(k: Seq<char>) -> Seq<u8> {
        encode_utf8(k)
    }

    proof fn lemma_order_bytes_injective(a: Seq<char>, b: Seq<char>) {
        vstd::utf8::encode_utf8_decode_utf8(a);
        vstd::utf8::encode_utf8_decode_utf8(b);
    }

    fn compare_key(&self, other: &Self) -> (r: i8) {
        compare_bytes(self.0.as_str().as_bytes(), other.0.as_str().as_bytes())
    }

    fn copy_key(&self) -> (r: Self) {
        self.duplicate()
    }
}

/// A named trust root whose standing is always scoped.
#[derive(Debug, Clone, PartialEq, Eq, PartialOrd, Ord, Hash)]
pub struct TrustRootId(String);

impl View for TrustRootId {
    type V = Seq<char>;

    closed spec fn view(&self) -> Seq<char> {
        self.0@
    }
}

impl TrustRootId {
    pub fn new(name: &str) -> (r: Self)
        ensures
            r@ == name@,
    {
        TrustRootId(name.to_owned())
    }

    pub fn from_string(name: String) -> (r: Self)
        ensures
            r@ == name@,
    {
        TrustRootId(name)
    }

    pub fn as_str(&self) -> (r: &str)
        ensures
            r@ == self@,
    {
        self.0.as_str()
    }

    pub fn same(&self, other: &Self) -> (r: bool)
        ensures
            r == (self@ == other@),
    {
        self.0 == other.0
    }

    pub fn duplicate(&self) -> (r: Self)
        ensures
            r@ == self@,
    {
        TrustRootId(self.0.clone())
    }
}

impl OrderedKey for TrustRootId {
    open spec fn order_bytes(k: Seq<char>) -> Seq<u8> {
        encode_utf8(k)
    }

    proof fn lemma_order_bytes_injective(a: Seq<char>, b: Seq<char>) {
        vstd::utf8::encode_utf8_decode_utf8(a);
        vstd::utf8::encode_utf8_decode_utf8(b);
    }

    fn compare_key(&self, other: &Self) -> (r: i8) {
        compare_bytes(self.0.as_str().as_bytes(), other.0.as_str().as_bytes())
    }

    fn copy_key(&self) -> (r: Self) {
        self.duplicate()
    }
}

/// A human or automated operator issuing visible overrides.
#[derive(Debug, Clone, PartialEq, Eq, PartialOrd, Ord, Hash)]
pub struct OperatorId(String);

impl View for OperatorId {
    type V = Seq<char>;

    closed spec fn view(&self) -> Seq<char> {
        self.0@
    }
}

impl OperatorId {
    pub fn new(name: &str) -> (r: Self)
        ensures
            r@ == name@,
    {
        OperatorId(name.to_owned())
    }

    pub fn from_string(name: String) -> (r: Self)
        ensures
            r@ == name@,
    {
        OperatorId(name)
    }

    pub fn as_str(&self) -> (r: &str)
        ensures
            r@ == self@,
    {
        self.0.as_str()
    }

    pub fn same(&self, other: &Self) -> (r: bool)
        ensures
            r == (self@ == other@),
    {
        self.0 == other.0
    }

    pub fn duplicate(&self) -> (r: Self)
        ensures
            r@ == self@,
    {
        OperatorId(self.0.clone())
    }
}

impl OrderedKey for OperatorId {
    open spec fn order_bytes(k: Seq<char>) -> Seq<u8> {
        encode_utf8(k)
    }

    proof fn lemma_order_bytes_injective(a: Seq<char>, b: Seq<char>) {
        vstd::utf8::encode_utf8_decode_utf8(a);
        vstd::utf8::encode_utf8_decode_utf8(b);
    }

    fn compare_key(&self, other: &Self) -> (r: i8) {
        compare_bytes(self.0.as_str().as_bytes(), other.0.as_str().as_bytes())
    }

    fn copy_key(&self) -> (r: Self) {
        self.duplicate()
    }
}

/// Content hash of a claim's canonical bytes.
#[derive(Debug, Clone, Copy, PartialEq, Eq, PartialOrd, Ord, Hash)]
pub struct ClaimId([u8; 32]);

impl View for ClaimId {
    type V = ClaimId;

    open spec fn view(&self) -> ClaimId {
        *self
    }
}

impl ClaimId {
    pub closed spec fn spec_bytes(self) -> Seq<u8> {
        self.0@
    }

    /// The id whose bytes are `b`.
    pub open spec fn with_bytes(b: Seq<u8>) -> Self {
        choose|id: Self| id.spec_bytes() == b
    }

    /// An id is determined by its bytes.
    pub proof fn lemma_with_bytes(self)
        ensures
            Self::with_bytes(self.spec_bytes()) == self,
    {
        let other = Self::with_bytes(self.spec_bytes());
        assert(other.spec_bytes() == self.spec_bytes());
        Self::lemma_order_bytes_injective(other, self);
    }

    pub fn from_bytes(bytes: [u8; 32]) -> (r: Self)
        ensures
            r.spec_bytes() == bytes@,
    {
        ClaimId(bytes)
    }

    pub fn as_bytes(&self) -> (r: &[u8; 32])
        ensures
            r@ == self.spec_bytes(),
    {
        &self.0
    }

    pub fn same(&self, other: &Self) -> (r: bool)
        ensures
            r == (*self == *other),
    {
        let r = bytes_equal(self.0.as_slice(), other.0.as_slice());
        proof {
            Self::lemma_order_bytes_injective(*self, *other);
        }
        r
    }
}

impl OrderedKey for ClaimId {
    closed spec fn order_bytes(k: ClaimId) -> Seq<u8> {
        k.0@
    }

    proof fn lemma_order_bytes_injective(a: ClaimId, b: ClaimId) {
        broadcast use vstd::array::group_array_axioms;
        if a.0@ == b.0@ {
            assert forall|i: int| 0 <= i < 32 implies a.0[i] == b.0[i] by {
                assert(a.0@[i] == b.0@[i]);
            }
            assert(a.0 =~= b.0);
        }
    }

    fn compare_key(&self, other: &Self) -> (r: i8) {
        compare_bytes(self.0.as_slice(), other.0.as_slice())
    }

    fn copy_key(&self) -> (r: Self) {
        *self
    }
}

/// Content hash of a witness record's canonical bytes.
#[derive(Debug, Clone, Copy, PartialEq, Eq, PartialOrd, Ord, Hash)]
pub struct WitnessRecordId([u8; 32]);

impl View for WitnessRecordId {
    type V = WitnessRecordId;

    open spec fn view(&self) -> WitnessRecordId {
        *self
    }
}

impl WitnessRecordId {
    pub closed spec fn spec_bytes(self) -> Seq<u8> {
        self.0@
    }

    /// The id whose bytes are `b`.
    pub open spec fn with_bytes(b: Seq<u8>) -> Self {
        choose|id: Self| id.spec_bytes() == b
    }

    /// An id is determined by its bytes.
    pub proof fn lemma_with_bytes(self)
        ensures
            Self::with_bytes(self.spec_bytes()) == self,
    {
        let other = Self::with_bytes(self.spec_bytes());
        assert(other.spec_bytes() == self.spec_bytes());
        Self::lemma_order_bytes_injective(other, self);
    }

    pub fn from_bytes(bytes: [u8; 32]) -> (r: Self)
        ensures
            r.spec_bytes() == bytes@,
    {
        WitnessRecordId(bytes)
    }

    pub fn as_bytes(&self) -> (r: &[u8; 32])
        ensures
            r@ == self.spec_bytes(),
    {
        &self.0
    }

    pub fn same(&self, other: &Self) -> (r: bool)
        ensures
            r == (*self == *other),
    {
        let r = bytes_equal(self.0.as_slice(), other.0.as_slice());
        proof {
            Self::lemma_order_bytes_injective(*self, *other);
        }
        r
    }
}

impl OrderedKey for WitnessRecordId {
    closed spec fn order_bytes(k: WitnessRecordId) -> Seq<u8> {
        k.0@
    }

    proof fn lemma_order_bytes_injective(a: WitnessRecordId, b: WitnessRecordId) {
        broadcast use vstd::array::group_array_axioms;
        if a.0@ == b.0@ {
            assert forall|i: int| 0 <= i < 32 implies a.0[i] == b.0[i] by {
                assert(a.0@[i] == b.0@[i]);
            }
            assert(a.0 =~= b.0);
        }
    }

    fn compare_key(&self, other: &Self) -> (r: i8) {
        compare_bytes(self.0.as_slice(), other.0.as_slice())
    }

    fn copy_key(&self) -> (r: Self) {
        *self
    }
}

/// Content hash of a local observation.
#[derive(Debug, Clone, Copy, PartialEq, Eq, PartialOrd, Ord, Hash)]
pub struct ObservationId([u8; 32]);

impl View for ObservationId {
    type V = ObservationId;

    open spec fn view(&self) -> ObservationId {
        *self
    }
}

impl ObservationId {
    pub closed spec fn spec_bytes(self) -> Seq<u8> {
        self.0@
    }

    /// The id whose bytes are `b`.
    pub open spec fn with_bytes(b: Seq<u8>) -> Self {
        choose|id: Self| id.spec_bytes() == b
    }

    /// An id is determined by its bytes.
    pub proof fn lemma_with_bytes(self)
        ensures
            Self::with_bytes(self.spec_bytes()) == self,
    {
        let other = Self::with_bytes(self.spec_bytes());
        assert(other.spec_bytes() == self.spec_bytes());
        Self::lemma_order_bytes_injective(other, self);
    }

    pub fn from_bytes(bytes: [u8; 32]) -> (r: Self)
        ensures
            r.spec_bytes() == bytes@,
    {
        ObservationId(bytes)
    }

    pub fn as_bytes(&self) -> (r: &[u8; 32])
        ensures
            r@ == self.spec_bytes(),
    {
        &self.0
    }

    pub fn same(&self, other: &Self) -> (r: bool)
        ensures
            r == (*self == *other),
    {
        let r = bytes_equal(self.0.as_slice(), other.0.as_slice());
        proof {
            Self::lemma_order_bytes_injective(*self, *other);
        }
        r
    }
}

impl OrderedKey for ObservationId {
    closed spec fn order_bytes(k: ObservationId) -> Seq<u8> {
        k.0@
    }

    proof fn lemma_order_bytes_injective(a: ObservationId, b: ObservationId) {
        broadcast use vstd::array::group_array_axioms;
        if a.0@ == b.0@ {
            assert forall|i: int| 0 <= i < 32 implies a.0[i] == b.0[i] by {
                assert(a.0@[i] == b.0@[i]);
            }
            assert(a.0 =~= b.0);
        }
    }

    fn compare_key(&self, other: &Self) -> (r: i8) {
        compare_bytes(self.0.as_slice(), other.0.as_slice())
    }

    fn copy_key(&self) -> (r: Self) {
        *self
    }
}

/// Identity of a preserved piece of unresolved disagreement.
#[derive(Debug, Clone, Copy, PartialEq, Eq, PartialOrd, Ord, Hash)]
pub struct ResidueId([u8; 32]);

impl View for ResidueId {
    type V = ResidueId;

    open spec fn view(&self) -> ResidueId {
        *self
    }
}

impl ResidueId {
    pub closed spec fn spec_bytes(self) -> Seq<u8> {
        self.0@
    }

    /// The id whose bytes are `b`.
    pub open spec fn with_bytes(b: Seq<u8>) -> Self {
        choose|id: Self| id.spec_bytes() == b
    }

    /// An id is determined by its bytes.
    pub proof fn lemma_with_bytes(self)
        ensures
            Self::with_bytes(self.spec_bytes()) == self,
    {
        let other = Self::with_bytes(self.spec_bytes());
        assert(other.spec_bytes() == self.spec_bytes());
        Self::lemma_order_bytes_injective(other, self);
    }

    pub fn from_bytes(bytes: [u8; 32]) -> (r: Self)
        ensures
            r.spec_bytes() == bytes@,
    {
        ResidueId(bytes)
    }

    pub fn as_bytes(&self) -> (r: &[u8; 32])
        ensures
            r@ == self.spec_bytes(),
    {
        &self.0
    }

    pub fn same(&self, other: &Self) -> (r: bool)
        ensures
            r == (*self == *other),
    {
        let r = bytes_equal(self.0.as_slice(), other.0.as_slice());
        proof {
            Self::lemma_order_bytes_injective(*self, *other);
        }
        r
    }
}

impl OrderedKey for ResidueId {
    closed spec fn order_bytes(k: ResidueId) -> Seq<u8> {
        k.0@
    }

    proof fn lemma_order_bytes_injective(a: ResidueId, b: ResidueId) {
        broadcast use vstd::array::group_array_axioms;
        if a.0@ == b.0@ {
            assert forall|i: int| 0 <= i < 32 implies a.0[i] == b.0[i] by {
                assert(a.0@[i] == b.0@[i]);
            }
            assert(a.0 =~= b.0);
        }
    }

    fn compare_key(&self, other: &Self) -> (r: i8) {
        compare_bytes(self.0.as_slice(), other.0.as_slice())
    }

    fn copy_key(&self) -> (r: Self) {
        *self
    }
}

/// Identity of an operator override, so an override can always be
/// distinguished from organic convergence.
#[derive(Debug, Clone, Copy, PartialEq, Eq, PartialOrd, Ord, Hash)]
pub struct OverrideId([u8; 32]);

impl View for OverrideId {
    type V = OverrideId;

    open spec fn view(&self) -> OverrideId {
        *self
    }
}

impl OverrideId {
    pub closed spec fn spec_bytes(self) -> Seq<u8> {
        self.0@
    }

    /// The id whose bytes are `b`.
    pub open spec fn with_bytes(b: Seq<u8>) -> Self {
        choose|id: Self| id.spec_bytes() == b
    }

    /// An id is determined by its bytes.
    pub proof fn lemma_with_bytes(self)
        ensures
            Self::with_bytes(self.spec_bytes()) == self,
    {
        let other = Self::with_bytes(self.spec_bytes());
        assert(other.spec_bytes() == self.spec_bytes());
        Self::lemma_order_bytes_injective(other, self);
    }

    pub fn from_bytes(bytes: [u8; 32]) -> (r: Self)
        ensures
            r.spec_bytes() == bytes@,
    {
        OverrideId(bytes)
    }

    pub fn as_bytes(&self) -> (r: &[u8; 32])
        ensures
            r@ == self.spec_bytes(),
    {
        &self.0
    }

    pub fn same(&self, other: &Self) -> (r: bool)
        ensures
            r == (*self == *other),
    {
        let r = bytes_equal(self.0.as_slice(), other.0.as_slice());
        proof {
            Self::lemma_order_bytes_injective(*self, *other);
        }
        r
    }
}

impl OrderedKey for OverrideId {
    closed spec fn order_bytes(k: OverrideId) -> Seq<u8> {
        k.0@
    }

    proof fn lemma_order_bytes_injective(a: OverrideId, b: OverrideId) {
        broadcast use vstd::array::group_array_axioms;
        if a.0@ == b.0@ {
            assert forall|i: int| 0 <= i < 32 implies a.0[i] == b.0[i] by {
                assert(a.0@[i] == b.0@[i]);
            }
            assert(a.0 =~= b.0);
        }
    }

    fn compare_key(&self, other: &Self) -> (r: i8) {
        compare_bytes(self.0.as_slice(), other.0.as_slice())
    }

    fn copy_key(&self) -> (r: Self) {
        *self
    }
}

} // verus!
