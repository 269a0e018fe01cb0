//! Keys of proxies in collider trees.

use crate::rigid_body::RigidBody;
use core::cmp::Ordering;
use vstd::prelude::*;
use vstd::std_specs::cmp::PartialOrdSpec;

verus! {

/// The number of distinct [`ProxyId`]s: only the lower 30 bits are used.
pub const PROXY_ID_LIMIT: u32 = 0x4000_0000;

/// The type of a collider tree, corresponding to the rigid body type.
#[derive(Clone, Copy, Debug, PartialEq, Eq, Hash, Structural)]
pub enum ColliderTreeType {
    /// A tree for dynamic bodies.
    Dynamic,
    /// A tree for kinematic bodies.
    Kinematic,
    /// A tree for static bodies.
    Static,
    /// A tree for standalone colliders with no associated rigid body.
    Standalone,
}

/// The tree type whose code is `code`, where the codes are `0` to `3`.
pub open spec fn tree_type_of_code(code: int) -> ColliderTreeType {
    if code == 0 {
        ColliderTreeType::Dynamic
    } else if code == 1 {
        ColliderTreeType::Kinematic
    } else if code == 2 {
        ColliderTreeType::Static
    } else {
        ColliderTreeType::Standalone
    }
}

/// The tree type for colliders attached to `body`, or to no body at all.
pub open spec fn tree_type_of_body(body: Option<RigidBody>) -> ColliderTreeType {
    match body {
        Some(RigidBody::Dynamic) => ColliderTreeType::Dynamic,
        Some(RigidBody::Kinematic) => ColliderTreeType::Kinematic,
        Some(RigidBody::Static) => ColliderTreeType::Static,
        None => ColliderTreeType::Standalone,
    }
}

impl ColliderTreeType {
    /// The number by which the tree type is encoded in a key, and by which
    /// tree types are ordered.
    pub open spec fn code(self) -> int {
        match self {
            ColliderTreeType::Dynamic => 0,
            ColliderTreeType::Kinematic => 1,
            ColliderTreeType::Static => 2,
            ColliderTreeType::Standalone => 3,
        }
    }

    /// The rigid body type whose colliders the tree holds, if they have a body.
    pub open spec fn body_type(self) -> Option<RigidBody> {
        match self {
            ColliderTreeType::Dynamic => Some(RigidBody::Dynamic),
            ColliderTreeType::Kinematic => Some(RigidBody::Kinematic),
            ColliderTreeType::Static => Some(RigidBody::Static),
            ColliderTreeType::Standalone => None,
        }
    }

    /// Returns the number by which the tree type is encoded and ordered.
    pub fn discriminant(&self) -> (res: u32)
        ensures
            res == self.code(),
    {
        match self {
            ColliderTreeType::Dynamic => 0,
            ColliderTreeType::Kinematic => 1,
            ColliderTreeType::Static => 2,
            ColliderTreeType::Standalone => 3,
        }
    }

    /// Creates a new [`ColliderTreeType`] from the given optional rigid body type.
    ///
    /// `None` corresponds to standalone colliders with no body.
    pub fn from_body(body: Option<RigidBody>) -> (res: Self)
        ensures
            res == tree_type_of_body(body),
    {
        match body {
            Some(RigidBody::Dynamic) => ColliderTreeType::Dynamic,
            Some(RigidBody::Kinematic) => ColliderTreeType::Kinematic,
            Some(RigidBody::Static) => ColliderTreeType::Static,
            None => ColliderTreeType::Standalone,
        }
    }

    /// Returns `true` if the tree type is for dynamic bodies.
    pub fn is_dynamic(&self) -> (res: bool)
        ensures
            res == (*self == ColliderTreeType::Dynamic),
    {
        matches!(self, ColliderTreeType::Dynamic)
    }

    /// Returns `true` if the tree type is for kinematic bodies.
    pub fn is_kinematic(&self) -> (res: bool)
        ensures
            res == (*self == ColliderTreeType::Kinematic),
    {
        matches!(self, ColliderTreeType::Kinematic)
    }

    /// Returns `true` if the tree type is for static bodies.
    pub fn is_static(&self) -> (res: bool)
        ensures
            res == (*self == ColliderTreeType::Static),
    {
        matches!(self, ColliderTreeType::Static)
    }

    /// Returns `true` if the tree type is for standalone colliders with no body.
    pub fn is_standalone(&self) -> (res: bool)
        ensures
            res == (*self == ColliderTreeType::Standalone),
    {
        matches!(self, ColliderTreeType::Standalone)
    }
}

impl From<Option<RigidBody>> for ColliderTreeType {
    fn from(body: Option<RigidBody>) -> (res: Self) {
        ColliderTreeType::from_body(body)
    }
}

impl vstd::std_specs::convert::FromSpecImpl<Option<RigidBody>> for ColliderTreeType {
    open spec fn obeys_from_spec() -> bool {
        true
    }

    open spec fn from_spec(body: Option<RigidBody>) -> Self {
        tree_type_of_body(body)
    }
}

impl From<ColliderTreeType> for Option<RigidBody> {
    fn from(tree_type: ColliderTreeType) -> (res: Self) {
        match tree_type {
            ColliderTreeType::Dynamic => Some(RigidBody::Dynamic),
            ColliderTreeType::Kinematic => Some(RigidBody::Kinematic),
            ColliderTreeType::Static => Some(RigidBody::Static),
            ColliderTreeType::Standalone => None,
        }
    }
}

impl vstd::std_specs::convert::FromSpecImpl<ColliderTreeType> for Option<RigidBody> {
    open spec fn obeys_from_spec() -> bool {
        true
    }

    open spec fn from_spec(tree_type: ColliderTreeType) -> Self {
        tree_type.body_type()
    }
}

impl From<RigidBody> for ColliderTreeType {
    fn from(body: RigidBody) -> (res: Self) {
        match body {
            RigidBody::Dynamic => ColliderTreeType::Dynamic,
            RigidBody::Kinematic => ColliderTreeType::Kinematic,
            RigidBody::Static => ColliderTreeType::Static,
        }
    }
}

impl vstd::std_specs::convert::FromSpecImpl<RigidBody> for ColliderTreeType {
    open spec fn obeys_from_spec() -> bool {
        true
    }

    open spec fn from_spec(body: RigidBody) -> Self {
        tree_type_of_body(Some(body))
    }
}

/// A stable identifier for a proxy in a collider tree.
#[derive(Clone, Copy, Debug, PartialEq, Eq, Ord, Hash, Structural)]
pub struct ProxyId(u32);

impl View for ProxyId {
    type V = u32;

    closed spec fn view(&self) -> u32 {
        self.0
    }
}

impl ProxyId {
    /// The identifier with the given number.
    pub closed spec fn of(id: u32) -> ProxyId {
        ProxyId(id)
    }

    /// The placeholder proxy ID used before the proxy is actually created.
    pub fn placeholder() -> (res: Self)
        ensures
            res@ == u32::MAX >> 2,
            res@ == PROXY_ID_LIMIT - 1,
            res == ProxyId::of(res@),
    {
        assert(u32::MAX >> 2 == 0x4000_0000u32 - 1) by (bit_vector);
        ProxyId(u32::MAX >> 2)
    }

    /// Creates a new [`ProxyId`] from the given `u32` identifier.
    ///
    /// Only the lower 30 bits may be used for the ID.
    pub fn new(id: u32) -> (res: Self)
        requires
            id < PROXY_ID_LIMIT,
        ensures
            res == ProxyId::of(id),
            res@ == id,
    {
        ProxyId(id)
    }

    /// Returns the proxy ID as a `u32`.
    pub fn id(&self) -> (res: u32)
        ensures
            res == self@,
    {
        self.0
    }

    /// Returns the proxy ID as a `usize`.
    pub fn index(&self) -> (res: usize)
        ensures
            res == self@,
    {
        self.0 as usize
    }
}

/// Two proxy IDs are the same exactly if their numbers are.
pub broadcast proof fn proxy_id_ext(a: ProxyId, b: ProxyId)
    ensures
        #[trigger] a@ == #[trigger] b@ <==> a == b,
        ProxyId::of(a@) == a,
{
}

/// [`ProxyId::of`] undoes taking the number of an ID.
pub broadcast proof fn proxy_id_of_view(id: u32)
    ensures
        (#[trigger] ProxyId::of(id))@ == id,
{
}

impl From<u32> for ProxyId {
    fn from(id: u32) -> (res: Self) {
        ProxyId(id)
    }
}

impl vstd::std_specs::convert::FromSpecImpl<u32> for ProxyId {
    open spec fn obeys_from_spec() -> bool {
        true
    }

    open spec fn from_spec(id: u32) -> Self {
        ProxyId::of(id)
    }
}

impl From<ProxyId> for u32 {
    fn from(proxy_id: ProxyId) -> (res: Self) {
        proxy_id.id()
    }
}

impl vstd::std_specs::convert::FromSpecImpl<ProxyId> for u32 {
    open spec fn obeys_from_spec() -> bool {
        true
    }

    open spec fn from_spec(proxy_id: ProxyId) -> Self {
        proxy_id@
    }
}

impl PartialOrd for ProxyId {
    fn partial_cmp(&self, other: &Self) -> (res: Option<Ordering>) {
        if self.0 < other.0 {
            Some(Ordering::Less)
        } else if self.0 == other.0 {
            Some(Ordering::Equal)
        } else {
            Some(Ordering::Greater)
        }
    }
}

impl vstd::std_specs::cmp::PartialOrdSpecImpl for ProxyId {
    open spec fn obeys_partial_cmp_spec() -> bool {
        true
    }

    open spec fn partial_cmp_spec(&self, other: &Self) -> Option<Ordering> {
        if self@ < other@ {
            Some(Ordering::Less)
        } else if self@ == other@ {
            Some(Ordering::Equal)
        } else {
            Some(Ordering::Greater)
        }
    }
}

/// A key for a proxy in a collider tree, encoding both the [`ProxyId`]
/// and the [`ColliderTreeType`].
///
/// The tree type is stored in the lower 2 bits of the key,
/// leaving 30 bits for the [`ProxyId`].
#[derive(Clone, Copy, Debug, PartialEq, Eq, Hash, Structural)]
pub struct ColliderTreeProxyKey(u32);

impl View for ColliderTreeProxyKey {
    type V = u32;

    closed spec fn view(&self) -> u32 {
        self.0
    }
}

impl ColliderTreeProxyKey {
    /// The number of the proxy ID in the key: its upper 30 bits.
    pub open spec fn spec_id(self) -> u32 {
        self@ / 4
    }

    /// The tree type in the key: its lower 2 bits.
    pub open spec fn spec_tree_type(self) -> ColliderTreeType {
        tree_type_of_code((self@ % 4) as int)
    }

    /// The key of the proxy with number `id` in the tree of type `tree_type`.
    pub closed spec fn of(id: u32, tree_type: ColliderTreeType) -> ColliderTreeProxyKey {
        ColliderTreeProxyKey((4 * id + tree_type.code()) as u32)
    }

    /// Whether the key is the placeholder used before a proxy is created.
    pub open spec fn is_placeholder(self) -> bool {
        self@ == u32::MAX
    }

    /// A placeholder proxy key used before the proxy is actually created.
    pub fn placeholder() -> (res: Self)
        ensures
            res.is_placeholder(),
    {
        ColliderTreeProxyKey(u32::MAX)
    }

    /// Creates a new [`ColliderTreeProxyKey`] from the given [`ProxyId`] and tree type.
    pub fn new(id: ProxyId, tree_type: ColliderTreeType) -> (res: Self)
        requires
            id@ < PROXY_ID_LIMIT,
        ensures
            res@ == 4 * id@ + tree_type.code(),
            res == ColliderTreeProxyKey::of(id@, tree_type),
            res.spec_id() == id@,
            res.spec_tree_type() == tree_type,
    {
        // Encode the tree type in the lower 2 bits.
        let raw: u32 = id.id();
        let code: u32 = tree_type.discriminant();
        assert((raw << 2) | code == 4 * raw + code) by (bit_vector)
            requires
                raw < 0x4000_0000,
                code < 4,
        ;
        ColliderTreeProxyKey((raw << 2) | code)
    }

    /// Returns the [`ProxyId`] of the proxy.
    pub fn id(&self) -> (res: ProxyId)
        ensures
            res@ == self.spec_id(),
            res@ < PROXY_ID_LIMIT,
    {
        let raw: u32 = self.0;
        assert(raw >> 2 == raw / 4 && raw >> 2 < 0x4000_0000) by (bit_vector);
        ProxyId::new(raw >> 2)
    }

    /// Returns the lower 2 bits of the key.
    fn code(&self) -> (res: u32)
        ensures
            res == self@ % 4,
    {
        let raw: u32 = self.0;
        assert(raw & 3 == raw % 4) by (bit_vector);
        raw & 3
    }

    /// Returns the [`ColliderTreeType`] of the proxy.
    pub fn tree_type(&self) -> (res: ColliderTreeType)
        ensures
            res == self.spec_tree_type(),
    {
        match self.code() {
            0 => ColliderTreeType::Dynamic,
            1 => ColliderTreeType::Kinematic,
            2 => ColliderTreeType::Static,
            _ => ColliderTreeType::Standalone,
        }
    }

    /// Returns the rigid body type associated with the proxy.
    ///
    /// If the proxy is a standalone collider with no body, returns `None`.
    pub fn body(&self) -> (res: Option<RigidBody>)
        ensures
            res == self.spec_tree_type().body_type(),
    {
        match self.code() {
            0 => Some(RigidBody::Dynamic),
            1 => Some(RigidBody::Kinematic),
            2 => Some(RigidBody::Static),
            _ => None,
        }
    }

    /// Returns `true` if the proxy belongs to a dynamic body.
    pub fn is_dynamic(&self) -> (res: bool)
        ensures
            res == (self.spec_tree_type() == ColliderTreeType::Dynamic),
    {
        matches!(self.body(), Some(RigidBody::Dynamic))
    }

    /// Returns `true` if the proxy belongs to a kinematic body.
    pub fn is_kinematic(&self) -> (res: bool)
        ensures
            res == (self.spec_tree_type() == ColliderTreeType::Kinematic),
    {
        matches!(self.body(), Some(RigidBody::Kinematic))
    }

    /// Returns `true` if the proxy belongs to a static body.
    pub fn is_static(&self) -> (res: bool)
        ensures
            res == (self.spec_tree_type() == ColliderTreeType::Static),
    {
        matches!(self.body(), Some(RigidBody::Static))
    }

    /// Returns `true` if the proxy is a standalone collider with no body.
    pub fn is_standalone(&self) -> (res: bool)
        ensures
            res == (self.spec_tree_type() == ColliderTreeType::Standalone),
    {
        self.body().is_none()
    }

    /// Returns the key as a single number.
    pub fn bits(&self) -> (res: u32)
        ensures
            res == self@,
    {
        self.0
    }
}

/// Two keys are the same exactly if their numbers are.
pub broadcast proof fn proxy_key_ext(a: ColliderTreeProxyKey, b: ColliderTreeProxyKey)
    ensures
        #[trigger] a@ == #[trigger] b@ <==> a == b,
{
}

/// Every key is made of its own ID and tree type.
pub proof fn proxy_key_parts(key: ColliderTreeProxyKey)
    ensures
        key.spec_id() < PROXY_ID_LIMIT,
        key@ == 4 * key.spec_id() + key.spec_tree_type().code(),
        key == ColliderTreeProxyKey::of(key.spec_id(), key.spec_tree_type()),
{
}

/// A key gives back the ID and the tree type that it was made from, so that
/// different proxies have different keys.
pub proof fn proxy_key_round_trip(id: u32, tree_type: ColliderTreeType)
    requires
        id < PROXY_ID_LIMIT,
    ensures
        ColliderTreeProxyKey::of(id, tree_type)@ == 4 * id + tree_type.code(),
        ColliderTreeProxyKey::of(id, tree_type).spec_id() == id,
        ColliderTreeProxyKey::of(id, tree_type).spec_tree_type() == tree_type,
{
}

/// The placeholder key is the one that the last ID has in the standalone tree,
/// and no other.
pub proof fn placeholder_key_is_last_standalone(key: ColliderTreeProxyKey)
    ensures
        key.is_placeholder() <==> key.spec_id() == PROXY_ID_LIMIT - 1 && key.spec_tree_type()
            == ColliderTreeType::Standalone,
{
}

/// Tree types and optional body types correspond one to one.
pub proof fn tree_type_body_round_trip(tree_type: ColliderTreeType, body: Option<RigidBody>)
    ensures
        tree_type_of_body(tree_type.body_type()) == tree_type,
        tree_type_of_body(body).body_type() == body,
        tree_type_of_code(tree_type.code()) == tree_type,
        0 <= tree_type.code() < 4,
{
}

/// The lower 2 bits of a key tell the tree types apart: 0 is for dynamic bodies, 1 for kinematic
/// ones, 2 for static ones, and 3 for no body. The upper 30 bits are the ID.
pub proof fn tree_types_in_order(key: ColliderTreeProxyKey)
    ensures
        key.spec_tree_type() == ColliderTreeType::Dynamic <==> key@ % 4 == 0,
        key.spec_tree_type() == ColliderTreeType::Kinematic <==> key@ % 4 == 1,
        key.spec_tree_type() == ColliderTreeType::Static <==> key@ % 4 == 2,
        key.spec_tree_type() == ColliderTreeType::Standalone <==> key@ % 4 == 3,
        key.spec_tree_type().code() == key@ % 4,
        key.spec_id() == key@ / 4,
        4 * key.spec_id() + key.spec_tree_type().code() == key@,
{
}

/// Colliders are kept in the tree for the type of their body, and in the standalone tree if there
/// is none.
pub proof fn tree_types_match_body_types(body: RigidBody)
    ensures
        tree_type_of_body(Some(body)) == ColliderTreeType::Dynamic <==> body == RigidBody::Dynamic,
        tree_type_of_body(Some(body)) == ColliderTreeType::Kinematic <==> body
            == RigidBody::Kinematic,
        tree_type_of_body(Some(body)) == ColliderTreeType::Static <==> body == RigidBody::Static,
        tree_type_of_body(Some(body)) != ColliderTreeType::Standalone,
        tree_type_of_body(None) == ColliderTreeType::Standalone,
{
}

/// Proxy IDs are ordered as their numbers.
pub proof fn ids_are_ordered_by_number(a: ProxyId, b: ProxyId)
    ensures
        a.partial_cmp_spec(&b) == Some(Ordering::Less) <==> a@ < b@,
        a.partial_cmp_spec(&b) == Some(Ordering::Equal) <==> a == b,
        a.partial_cmp_spec(&b) == Some(Ordering::Greater) <==> a@ > b@,
{
}

} // verus!
