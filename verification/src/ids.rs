use vstd::prelude::*;
use vstd::string::StringExecFns;
use vstd::std_specs::cmp::{PartialOrdSpec, PartialOrdSpecImpl};
use core::cmp::Ordering;

verus! {


/// Identifier of a vertex. A null identifier refers to no vertex.
#[derive(Clone, Copy, PartialEq, Eq, Structural, Hash, Ord, Debug)]
pub struct VertexID {
    val: usize,
    dead: bool,
}

impl VertexID {
    /// The index that a live identifier carries.
    pub closed spec fn index(self) -> usize {
        self.val
    }

    /// Whether the identifier is null.
    pub closed spec fn spec_is_null(&self) -> bool {
        self.dead
    }

    /// The live identifier with the given index.
    pub closed spec fn spec_new(val: usize) -> VertexID {
        VertexID { val, dead: false }
    }

    /// The null identifier.
    pub closed spec fn spec_null() -> VertexID {
        VertexID { val: 0, dead: true }
    }

    /// A null identifier carries index 0, so that there is one null identifier.
    #[verifier::type_invariant]
    closed spec fn null_is_zero(self) -> bool {
        self.dead ==> self.val == 0
    }

    pub broadcast proof fn lemma_spec_new(val: usize)
        ensures
            (#[trigger] VertexID::spec_new(val)).index() == val,
            !VertexID::spec_new(val).spec_is_null(),
            VertexID::spec_new(val) != VertexID::spec_null(),
    {
    }

    /// Two identifiers are equal exactly when they agree on index and nullness.
    pub broadcast proof fn lemma_ext(a: VertexID, b: VertexID)
        ensures
            (#[trigger] a.index() == #[trigger] b.index() && a.spec_is_null() == b.spec_is_null()) <==> a == b,
    {
    }

    pub fn new(val: usize) -> (r: VertexID)
        ensures
            r.index() == val,
            !r.spec_is_null(),
            r == Self::spec_new(val),
    {
        VertexID { val, dead: false }
    }

    pub fn null() -> (r: VertexID)
        ensures
            r.index() == 0,
            r.spec_is_null(),
            r == Self::spec_null(),
    {
        VertexID { val: 0, dead: true }
    }

    /// Whether the identifier is null; exactly the null identifier is.
    #[verifier::when_used_as_spec(spec_is_null)]
    pub fn is_null(&self) -> (r: bool)
        ensures
            r == self.spec_is_null(),
            r <==> *self == Self::spec_null(),
    {
        proof {
            use_type_invariant(self);
        }
        self.dead
    }

    /// The index of a live identifier, which the identifier made from it is equal to; a null
    /// identifier has none.
    pub fn val(&self) -> (r: usize)
        requires
            !self.spec_is_null(),
        ensures
            r == self.index(),
            Self::spec_new(r) == *self,
    {
        self.val
    }

    /// A readable rendering of the identifier, `(id: <index>, dead: <nullness>))`.
    pub fn to_string(&self) -> (r: String)
        ensures
            r@ == id_text(self.index(), self.spec_is_null()),
    {
        id_string(self.val, self.dead)
    }
}

/// Identifier of a halfedge. A null identifier refers to no halfedge.
#[derive(Clone, Copy, PartialEq, Eq, Structural, Hash, Ord, Debug)]
pub struct HalfEdgeID {
    val: usize,
    dead: bool,
}

impl HalfEdgeID {
    /// The index that a live identifier carries.
    pub closed spec fn index(self) -> usize {
        self.val
    }

    /// Whether the identifier is null.
    pub closed spec fn spec_is_null(&self) -> bool {
        self.dead
    }

    /// The live identifier with the given index.
    pub closed spec fn spec_new(val: usize) -> HalfEdgeID {
        HalfEdgeID { val, dead: false }
    }

    /// The null identifier.
    pub closed spec fn spec_null() -> HalfEdgeID {
        HalfEdgeID { val: 0, dead: true }
    }

    /// A null identifier carries index 0, so that there is one null identifier.
    #[verifier::type_invariant]
    closed spec fn null_is_zero(self) -> bool {
        self.dead ==> self.val == 0
    }

    pub broadcast proof fn lemma_spec_new(val: usize)
        ensures
            (#[trigger] HalfEdgeID::spec_new(val)).index() == val,
            !HalfEdgeID::spec_new(val).spec_is_null(),
            HalfEdgeID::spec_new(val) != HalfEdgeID::spec_null(),
    {
    }

    /// Two identifiers are equal exactly when they agree on index and nullness.
    pub broadcast proof fn lemma_ext(a: HalfEdgeID, b: HalfEdgeID)
        ensures
            (#[trigger] a.index() == #[trigger] b.index() && a.spec_is_null() == b.spec_is_null()) <==> a == b,
    {
    }

    pub fn new(val: usize) -> (r: HalfEdgeID)
        ensures
            r.index() == val,
            !r.spec_is_null(),
            r == Self::spec_new(val),
    {
        HalfEdgeID { val, dead: false }
    }

    pub fn null() -> (r: HalfEdgeID)
        ensures
            r.index() == 0,
            r.spec_is_null(),
            r == Self::spec_null(),
    {
        HalfEdgeID { val: 0, dead: true }
    }

    /// Whether the identifier is null; exactly the null identifier is.
    #[verifier::when_used_as_spec(spec_is_null)]
    pub fn is_null(&self) -> (r: bool)
        ensures
            r == self.spec_is_null(),
            r <==> *self == Self::spec_null(),
    {
        proof {
            use_type_invariant(self);
        }
        self.dead
    }

    /// The index of a live identifier, which the identifier made from it is equal to; a null
    /// identifier has none.
    pub fn val(&self) -> (r: usize)
        requires
            !self.spec_is_null(),
        ensures
            r == self.index(),
            Self::spec_new(r) == *self,
    {
        self.val
    }

    /// A readable rendering of the identifier, `(id: <index>, dead: <nullness>))`.
    pub fn to_string(&self) -> (r: String)
        ensures
            r@ == id_text(self.index(), self.spec_is_null()),
    {
        id_string(self.val, self.dead)
    }
}

/// Identifier of a face. A null identifier refers to no face.
#[derive(Clone, Copy, PartialEq, Eq, Structural, Hash, Ord, Debug)]
pub struct FaceID {
    val: usize,
    dead: bool,
}

impl FaceID {
    /// The index that a live identifier carries.
    pub closed spec fn index(self) -> usize {
        self.val
    }

    /// Whether the identifier is null.
    pub closed spec fn spec_is_null(&self) -> bool {
        self.dead
    }

    /// The live identifier with the given index.
    pub closed spec fn spec_new(val: usize) -> FaceID {
        FaceID { val, dead: false }
    }

    /// The null identifier.
    pub closed spec fn spec_null() -> FaceID {
        FaceID { val: 0, dead: true }
    }

    /// A null identifier carries index 0, so that there is one null identifier.
    #[verifier::type_invariant]
    closed spec fn null_is_zero(self) -> bool {
        self.dead ==> self.val == 0
    }

    pub broadcast proof fn lemma_spec_new(val: usize)
        ensures
            (#[trigger] FaceID::spec_new(val)).index() == val,
            !FaceID::spec_new(val).spec_is_null(),
            FaceID::spec_new(val) != FaceID::spec_null(),
    {
    }

    /// Two identifiers are equal exactly when they agree on index and nullness.
    pub broadcast proof fn lemma_ext(a: FaceID, b: FaceID)
        ensures
            (#[trigger] a.index() == #[trigger] b.index() && a.spec_is_null() == b.spec_is_null()) <==> a == b,
    {
    }

    pub fn new(val: usize) -> (r: FaceID)
        ensures
            r.index() == val,
            !r.spec_is_null(),
            r == Self::spec_new(val),
    {
        FaceID { val, dead: false }
    }

    pub fn null() -> (r: FaceID)
        ensures
            r.index() == 0,
            r.spec_is_null(),
            r == Self::spec_null(),
    {
        FaceID { val: 0, dead: true }
    }

    /// Whether the identifier is null; exactly the null identifier is.
    #[verifier::when_used_as_spec(spec_is_null)]
    pub fn is_null(&self) -> (r: bool)
        ensures
            r == self.spec_is_null(),
            r <==> *self == Self::spec_null(),
    {
        proof {
            use_type_invariant(self);
        }
        self.dead
    }

    /// The index of a live identifier, which the identifier made from it is equal to; a null
    /// identifier has none.
    pub fn val(&self) -> (r: usize)
        requires
            !self.spec_is_null(),
        ensures
            r == self.index(),
            Self::spec_new(r) == *self,
    {
        self.val
    }

    /// A readable rendering of the identifier, `(id: <index>, dead: <nullness>))`.
    pub fn to_string(&self) -> (r: String)
        ensures
            r@ == id_text(self.index(), self.spec_is_null()),
    {
        id_string(self.val, self.dead)
    }
}


impl PartialOrd for VertexID {
    fn partial_cmp(&self, other: &Self) -> (r: Option<Ordering>) {
        if self.val < other.val {
            Some(Ordering::Less)
        } else if other.val < self.val {
            Some(Ordering::Greater)
        } else if self.dead == other.dead {
            Some(Ordering::Equal)
        } else if !self.dead {
            Some(Ordering::Less)
        } else {
            Some(Ordering::Greater)
        }
    }
}

impl PartialOrdSpecImpl for VertexID {
    open spec fn obeys_partial_cmp_spec() -> bool {
        true
    }

    open spec fn partial_cmp_spec(&self, other: &Self) -> Option<Ordering> {
        Some(id_order(self.index(), self.spec_is_null(), other.index(), other.spec_is_null()))
    }
}

impl PartialOrd for HalfEdgeID {
    fn partial_cmp(&self, other: &Self) -> (r: Option<Ordering>) {
        if self.val < other.val {
            Some(Ordering::Less)
        } else if other.val < self.val {
            Some(Ordering::Greater)
        } else if self.dead == other.dead {
            Some(Ordering::Equal)
        } else if !self.dead {
            Some(Ordering::Less)
        } else {
            Some(Ordering::Greater)
        }
    }
}

impl PartialOrdSpecImpl for HalfEdgeID {
    open spec fn obeys_partial_cmp_spec() -> bool {
        true
    }

    open spec fn partial_cmp_spec(&self, other: &Self) -> Option<Ordering> {
        Some(id_order(self.index(), self.spec_is_null(), other.index(), other.spec_is_null()))
    }
}

impl PartialOrd for FaceID {
    fn partial_cmp(&self, other: &Self) -> (r: Option<Ordering>) {
        if self.val < other.val {
            Some(Ordering::Less)
        } else if other.val < self.val {
            Some(Ordering::Greater)
        } else if self.dead == other.dead {
            Some(Ordering::Equal)
        } else if !self.dead {
            Some(Ordering::Less)
        } else {
            Some(Ordering::Greater)
        }
    }
}

impl PartialOrdSpecImpl for FaceID {
    open spec fn obeys_partial_cmp_spec() -> bool {
        true
    }

    open spec fn partial_cmp_spec(&self, other: &Self) -> Option<Ordering> {
        Some(id_order(self.index(), self.spec_is_null(), other.index(), other.spec_is_null()))
    }
}

/// Identifiers are ordered by index, and at one index a live identifier comes before a null
/// one.
pub open spec fn id_order(a: usize, a_null: bool, b: usize, b_null: bool) -> Ordering {
    if a < b {
        Ordering::Less
    } else if b < a {
        Ordering::Greater
    } else if a_null == b_null {
        Ordering::Equal
    } else if !a_null {
        Ordering::Less
    } else {
        Ordering::Greater
    }
}

/// Identifiers made from indices are equal exactly when the indices are, and ordered as the
/// indices are.
pub proof fn lemma_new_order(a: usize, b: usize)
    ensures
        (VertexID::spec_new(a) == VertexID::spec_new(b)) <==> a == b,
        (HalfEdgeID::spec_new(a) == HalfEdgeID::spec_new(b)) <==> a == b,
        (FaceID::spec_new(a) == FaceID::spec_new(b)) <==> a == b,
        (PartialOrdSpec::partial_cmp_spec(&VertexID::spec_new(a), &VertexID::spec_new(b)) == Some(Ordering::Less)) <==> a < b,
        (PartialOrdSpec::partial_cmp_spec(&HalfEdgeID::spec_new(a), &HalfEdgeID::spec_new(b)) == Some(Ordering::Less)) <==> a < b,
        (PartialOrdSpec::partial_cmp_spec(&FaceID::spec_new(a), &FaceID::spec_new(b)) == Some(Ordering::Less)) <==> a < b,
{
}

pub broadcast group group_id_ext {
    VertexID::lemma_ext,
    HalfEdgeID::lemma_ext,
    FaceID::lemma_ext,
    VertexID::lemma_spec_new,
    HalfEdgeID::lemma_spec_new,
    FaceID::lemma_spec_new,
}

/// The decimal digits of `n`, most significant first.
pub open spec fn decimal(n: nat) -> Seq<char>
    decreases n,
{
    if n < 10 {
        seq![((n + 48) as int) as char]
    } else {
        decimal(n / 10).push(((n % 10 + 48) as int) as char)
    }
}

/// The text of an identifier: `(id: `, its index in decimal, `, dead: `, `true` or `false`,
/// and `))`.
pub open spec fn id_text(val: usize, dead: bool) -> Seq<char> {
    seq!['(', 'i', 'd', ':', ' '] + decimal(val as nat) + seq![',', ' ', 'd', 'e', 'a', 'd', ':', ' '] + (if dead {
        seq!['t', 'r', 'u', 'e']
    } else {
        seq!['f', 'a', 'l', 's', 'e']
    }) + seq![')', ')']
}

/// The text of one decimal digit.
fn digit_str(d: usize) -> (r: &'static str)
    requires
        d < 10,
    ensures
        r@ == seq![((d + 48) as int) as char],
{
    if d == 0 {
        proof { reveal_strlit("0"); }
        "0"
    } else if d == 1 {
        proof { reveal_strlit("1"); }
        "1"
    } else if d == 2 {
        proof { reveal_strlit("2"); }
        "2"
    } else if d == 3 {
        proof { reveal_strlit("3"); }
        "3"
    } else if d == 4 {
        proof { reveal_strlit("4"); }
        "4"
    } else if d == 5 {
        proof { reveal_strlit("5"); }
        "5"
    } else if d == 6 {
        proof { reveal_strlit("6"); }
        "6"
    } else if d == 7 {
        proof { reveal_strlit("7"); }
        "7"
    } else if d == 8 {
        proof { reveal_strlit("8"); }
        "8"
    } else {
        proof { reveal_strlit("9"); }
        "9"
    }
}

/// `n` written in decimal.
pub fn decimal_string(n: usize) -> (r: String)
    ensures
        r@ == decimal(n as nat),
    decreases n,
{
    if n < 10 {
        String::from_str(digit_str(n))
    } else {
        let mut s = decimal_string(n / 10);
        let d = digit_str(n % 10);
        s.append(d);
        proof {
            assert(s@ =~= decimal((n / 10) as nat).push(((n % 10 + 48) as int) as char));
        }
        s
    }
}

/// The text of an identifier with the given index and nullness (see `id_text`).
fn id_string(val: usize, dead: bool) -> (r: String)
    ensures
        r@ == id_text(val, dead),
{
    proof {
        reveal_strlit("(id: ");
        reveal_strlit(", dead: ");
        reveal_strlit("true");
        reveal_strlit("false");
        reveal_strlit("))");
    }
    let mut s = String::from_str("(id: ");
    let digits = decimal_string(val);
    s.append(digits.as_str());
    s.append(", dead: ");
    if dead {
        s.append("true");
    } else {
        s.append("false");
    }
    s.append("))");
    proof {
        assert(s@ =~= id_text(val, dead));
    }
    s
}

} // verus!
