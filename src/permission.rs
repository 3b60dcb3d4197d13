//! Permission resolution: the effective capability bitfield of a member in a
//! channel, from the member's roles and the channel's per-role overrides.
//!
//! Roles add up: the base bitfield is the OR of the permissions of every role
//! the member holds. Overrides are layered by role position, lowest first,
//! each applied as `(bits & !deny) | allow`, so for each bit the override of
//! the highest-position role that mentions the bit decides it, and within one
//! override its allow beats its own deny. Between overrides of different
//! roles at that same position, a deny (one not cancelled by the same
//! override's allow) wins over an allow. The owner of the server and holders
//! of the administrator bit skip the overrides and hold every capability.

use vstd::prelude::*;
use crate::models::{ChannelType, Member, PermissionOverride, Role, Server, Channel};

verus! {

/// May see the channel and receive its messages.
pub const READ: u64 = 0x1;
/// May post messages into the channel.
pub const WRITE: u64 = 0x2;
pub const MANAGE_MESSAGES: u64 = 0x4;
pub const MANAGE_CHANNELS: u64 = 0x8;
pub const MANAGE_ROLES: u64 = 0x10;
pub const KICK_MEMBERS: u64 = 0x20;
pub const BAN_MEMBERS: u64 = 0x40;
/// Bypasses channel overrides and grants every capability.
pub const ADMINISTRATOR: u64 = 0x80;
/// Every capability defined above.
pub const PERMISSIONS: u64 = 0xFF;

/// A capability that can be asked for on a channel.
#[derive(Clone, Copy, Debug, PartialEq, Eq, Structural)]
pub enum Capability {
    Read,
    Write,
}

impl Capability {
    /// Index of the capability's bit in a permission bitfield.
    pub open spec fn bit_index(self) -> u64 {
        match self {
            Capability::Read => 0,
            Capability::Write => 1,
        }
    }

    pub fn bit(&self) -> (r: u64)
        ensures
            r == self.bit_index(),
    {
        match self {
            Capability::Read => 0,
            Capability::Write => 1,
        }
    }
}

/// One applicable override, placed at the position of its role.
#[derive(Clone, Copy, Debug, PartialEq, Eq, Structural)]
pub struct Layer {
    pub position: i32,
    pub allow: u64,
    pub deny: u64,
}

/// The outcome of a resolution: the decision and the bitfield it rests on.
#[derive(Clone, Copy, Debug, PartialEq, Eq, Structural)]
pub struct Resolution {
    pub allowed: bool,
    pub permissions: u64,
}

/// Bit `b` of `x` is set.
pub open spec fn has_bit(x: u64, b: u64) -> bool {
    (x >> b) & 1u64 == 1u64
}

/// OR of the permissions of every role in `roles` whose id is in `held`.
pub open spec fn base_permissions(roles: Seq<Role>, held: Seq<u64>) -> u64
    decreases roles.len(),
{
    if roles.len() == 0 {
        0
    } else {
        let rest = base_permissions(roles.drop_last(), held);
        if held.contains(roles.last().role_id) {
            rest | roles.last().permissions
        } else {
            rest
        }
    }
}

/// Position of the first role in `roles` with id `id`.
pub open spec fn role_position(roles: Seq<Role>, id: u64) -> Option<i32>
    decreases roles.len(),
{
    if roles.len() == 0 {
        None
    } else {
        match role_position(roles.drop_last(), id) {
            Some(p) => Some(p),
            None => if roles.last().role_id == id {
                Some(roles.last().position)
            } else {
                None
            },
        }
    }
}

/// The layer made of override `o` for roles `roles`, if `held` holds its
/// role and `roles` defines it.
pub open spec fn layer_of(roles: Seq<Role>, held: Seq<u64>, o: PermissionOverride) -> Option<Layer> {
    if held.contains(o.role_id) {
        match role_position(roles, o.role_id) {
            Some(p) => Some(Layer { position: p, allow: o.allow, deny: o.deny }),
            None => None,
        }
    } else {
        None
    }
}

/// The overrides of `ovs` that belong to a held, defined role, in the order
/// of `ovs`, each at its role's position.
pub open spec fn layers_of(roles: Seq<Role>, held: Seq<u64>, ovs: Seq<PermissionOverride>) -> Seq<
    Layer,
>
    decreases ovs.len(),
{
    if ovs.len() == 0 {
        seq![]
    } else {
        let rest = layers_of(roles, held, ovs.drop_last());
        match layer_of(roles, held, ovs.last()) {
            Some(l) => rest.push(l),
            None => rest,
        }
    }
}

/// Layer `l` allows or denies bit `b`.
pub open spec fn touches(l: Layer, b: u64) -> bool {
    has_bit(l.allow, b) || has_bit(l.deny, b)
}

/// Some layer above position `p` allows or denies bit `b`.
pub open spec fn outranked(ls: Seq<Layer>, b: u64, p: i32) -> bool {
    exists|j: int| 0 <= j < ls.len() && touches(#[trigger] ls[j], b) && ls[j].position > p
}

/// Layer `l` denies bit `b` and does not allow it: applied as
/// `(bits & !deny) | allow`, it clears the bit.
pub open spec fn refuses(l: Layer, b: u64) -> bool {
    has_bit(l.deny, b) && !has_bit(l.allow, b)
}

/// Some layer at position `p` refuses bit `b`.
pub open spec fn denied_at(ls: Seq<Layer>, b: u64, p: i32) -> bool {
    exists|j: int| 0 <= j < ls.len() && refuses(#[trigger] ls[j], b) && ls[j].position == p
}

/// Bit `b` after layering `ls` over `base`: untouched bits keep their base
/// value; otherwise the bit is set iff a layer at the highest position that
/// touches it allows it and no layer at that position refuses it.
pub open spec fn layered_bit(base: u64, ls: Seq<Layer>, b: u64) -> bool {
    ((forall|i: int| 0 <= i < ls.len() ==> !touches(#[trigger] ls[i], b)) && has_bit(base, b))
        || exists|i: int|
        0 <= i < ls.len() && has_bit(#[trigger] ls[i].allow, b) && !outranked(ls, b, ls[i].position)
            && !denied_at(ls, b, ls[i].position)
}

/// `r` is the bitfield obtained by layering `ls` over `base`.
pub open spec fn is_layered(r: u64, base: u64, ls: Seq<Layer>) -> bool {
    forall|b: u64| b < 64 ==> #[trigger] has_bit(r, b) == layered_bit(base, ls, b)
}

/// The server's owner, or a member whose roles carry the administrator bit.
pub open spec fn privileged(server: Server, member: Member) -> bool {
    member.user_id == server.owner_id || base_permissions(server.roles@, member.roles@)
        & ADMINISTRATOR != 0
}

/// The channel type accepts messages from members without privilege.
pub open spec fn open_for_writing(t: ChannelType) -> bool {
    t != ChannelType::Announcement
}

/// The decision that a bitfield gives for a capability on a channel type,
/// for a member without privilege.
pub open spec fn grants(bits: u64, t: ChannelType, cap: Capability) -> bool {
    has_bit(bits, cap.bit_index()) && (cap == Capability::Write ==> open_for_writing(t))
}

/// Whether `member` may use `cap` on `channel` of `server`: always for the
/// privileged; otherwise when the capability's bit is set after layering and,
/// for writing, the channel type accepts unprivileged messages.
pub open spec fn permits(server: Server, member: Member, channel: Channel, cap: Capability) -> bool {
    privileged(server, member) || (layered_bit(
        base_permissions(server.roles@, member.roles@),
        layers_of(server.roles@, member.roles@, channel.permissions@),
        cap.bit_index(),
    ) && (cap == Capability::Write ==> open_for_writing(channel.channel_type)))
}

/// What `resolve` returns.
pub open spec fn resolves_to(
    r: Resolution,
    server: Server,
    member: Member,
    channel: Channel,
    cap: Capability,
) -> bool {
    if privileged(server, member) {
        r.permissions == PERMISSIONS && r.allowed
    } else {
        is_layered(
            r.permissions,
            base_permissions(server.roles@, member.roles@),
            layers_of(server.roles@, member.roles@, channel.permissions@),
        ) && r.allowed == grants(r.permissions, channel.channel_type, cap)
    }
}

proof fn lemma_bit_set_same(r: u64, b: u64)
    by (bit_vector)
    requires
        b < 64,
    ensures
        ((r | (1u64 << b)) >> b) & 1u64 == 1u64,
{
}

proof fn lemma_bit_set_other(r: u64, b: u64, c: u64)
    by (bit_vector)
    requires
        b < 64,
        c < 64,
        c != b,
    ensures
        ((r | (1u64 << b)) >> c) & 1u64 == (r >> c) & 1u64,
{
}

proof fn lemma_zero_bits(c: u64)
    by (bit_vector)
    requires
        c < 64,
    ensures
        (0u64 >> c) & 1u64 == 0u64,
{
}

fn contains_id(v: &Vec<u64>, x: u64) -> (r: bool)
    ensures
        r == v@.contains(x),
{
    let mut i: usize = 0;
    while i < v.len()
        invariant
            i <= v.len(),
            forall|j: int| 0 <= j < i ==> v@[j] != x,
        decreases v.len() - i,
    {
        if v[i] == x {
            return true;
        }
        i = i + 1;
    }
    false
}

/// OR of the permissions of the roles of `roles` that `held` names.
pub fn base_of(roles: &Vec<Role>, held: &Vec<u64>) -> (r: u64)
    ensures
        r == base_permissions(roles@, held@),
{
    let mut acc: u64 = 0;
    let mut i: usize = 0;
    while i < roles.len()
        invariant
            i <= roles.len(),
            acc == base_permissions(roles@.subrange(0, i as int), held@),
        decreases roles.len() - i,
    {
        assert(roles@.subrange(0, i as int + 1).drop_last() =~= roles@.subrange(0, i as int));
        if contains_id(held, roles[i].role_id) {
            acc = acc | roles[i].permissions;
        }
        i = i + 1;
    }
    assert(roles@.subrange(0, roles.len() as int) =~= roles@);
    acc
}

/// Position of the first role of `roles` with id `id`.
pub fn position_of(roles: &Vec<Role>, id: u64) -> (r: Option<i32>)
    ensures
        r == role_position(roles@, id),
{
    let mut found: Option<i32> = None;
    let mut i: usize = 0;
    while i < roles.len()
        invariant
            i <= roles.len(),
            found == role_position(roles@.subrange(0, i as int), id),
        decreases roles.len() - i,
    {
        assert(roles@.subrange(0, i as int + 1).drop_last() =~= roles@.subrange(0, i as int));
        if found.is_none() && roles[i].role_id == id {
            found = Some(roles[i].position);
        }
        i = i + 1;
    }
    assert(roles@.subrange(0, roles.len() as int) =~= roles@);
    found
}

/// The layers that the overrides `ovs` contribute for a member holding `held`.
pub fn collect_layers(roles: &Vec<Role>, held: &Vec<u64>, ovs: &Vec<PermissionOverride>) -> (r: Vec<
    Layer,
>)
    ensures
        r@ == layers_of(roles@, held@, ovs@),
{
    let mut out: Vec<Layer> = Vec::new();
    let mut i: usize = 0;
    while i < ovs.len()
        invariant
            i <= ovs.len(),
            out@ == layers_of(roles@, held@, ovs@.subrange(0, i as int)),
        decreases ovs.len() - i,
    {
        assert(ovs@.subrange(0, i as int + 1).drop_last() =~= ovs@.subrange(0, i as int));
        let o = ovs[i];
        if contains_id(held, o.role_id) {
            match position_of(roles, o.role_id) {
                Some(p) => {
                    out.push(Layer { position: p, allow: o.allow, deny: o.deny });
                },
                None => {},
            }
        }
        i = i + 1;
    }
    assert(ovs@.subrange(0, ovs.len() as int) =~= ovs@);
    out
}

/// Bit `b` of the result of layering `ls` over `base`.
pub fn layer_bit(base: u64, ls: &Vec<Layer>, b: u64) -> (r: bool)
    requires
        b < 64,
    ensures
        r == layered_bit(base, ls@, b),
{
    let mut found = false;
    let mut top: i32 = 0;
    let mut allow_top = false;
    let mut deny_top = false;
    let mut k: usize = 0;
    while k < ls.len()
        invariant
            k <= ls.len(),
            b < 64,
            found == exists|i: int| 0 <= i < k && touches(#[trigger] ls@[i], b),
            found ==> exists|i: int| 0 <= i < k && touches(#[trigger] ls@[i], b) && ls@[i].position == top,
            found ==> forall|i: int| 0 <= i < k && touches(#[trigger] ls@[i], b) ==> ls@[i].position <= top,
            found ==> (allow_top == exists|i: int|
                0 <= i < k && has_bit(#[trigger] ls@[i].allow, b) && ls@[i].position == top),
            found ==> (deny_top == exists|i: int|
                0 <= i < k && refuses(#[trigger] ls@[i], b) && ls@[i].position == top),
        decreases ls.len() - k,
    {
        let l = ls[k];
        let a = (l.allow >> b) & 1u64 == 1u64;
        let d = (l.deny >> b) & 1u64 == 1u64;
        let refused = d && !a;
        if a || d {
            if !found || l.position > top {
                found = true;
                top = l.position;
                allow_top = a;
                deny_top = refused;
                assert forall|i: int| 0 <= i < k + 1 && has_bit(#[trigger] ls@[i].allow, b) && ls@[i].position == top
                    implies i == k by {}
                assert forall|i: int| 0 <= i < k + 1 && refuses(#[trigger] ls@[i], b) && ls@[i].position == top
                    implies i == k by {}
            } else if l.position == top {
                allow_top = allow_top || a;
                deny_top = deny_top || refused;
            }
        }
        assert(ls@[k as int] == l);
        k = k + 1;
    }
    let ghost ls_v = ls@;
    if found {
        let r = allow_top && !deny_top;
        proof {
            if r {
                let i = choose|i: int| 0 <= i < ls_v.len() && has_bit(#[trigger] ls_v[i].allow, b) && ls_v[i].position == top;
                assert(!outranked(ls_v, b, ls_v[i].position));
                assert(!denied_at(ls_v, b, ls_v[i].position));
            } else {
                let w = choose|i: int| 0 <= i < ls_v.len() && touches(#[trigger] ls_v[i], b) && ls_v[i].position == top;
                assert forall|i: int| 0 <= i < ls_v.len() && has_bit(#[trigger] ls_v[i].allow, b)
                    && !outranked(ls_v, b, ls_v[i].position) implies denied_at(ls_v, b, ls_v[i].position) by {
                    assert(touches(ls_v[i], b));
                    if ls_v[i].position < top {
                        assert(touches(ls_v[w], b));
                    }
                }
                assert(!(forall|i: int| 0 <= i < ls_v.len() ==> !touches(#[trigger] ls_v[i], b)));
            }
        }
        r
    } else {
        let r = (base >> b) & 1u64 == 1u64;
        proof {
            assert forall|i: int| 0 <= i < ls_v.len() implies !has_bit(#[trigger] ls_v[i].allow, b) by {
                assert(!touches(ls_v[i], b));
            }
        }
        r
    }
}

/// The bitfield obtained by layering `ls` over `base`, bit by bit.
pub fn apply_layers(base: u64, ls: &Vec<Layer>) -> (r: u64)
    ensures
        is_layered(r, base, ls@),
{
    let mut r: u64 = 0;
    let mut b: u64 = 0;
    proof {
        assert forall|c: u64| c < 64 implies !#[trigger] has_bit(r, c) by {
            lemma_zero_bits(c);
        }
    }
    while b < 64
        invariant
            b <= 64,
            forall|c: u64| c < b ==> #[trigger] has_bit(r, c) == layered_bit(base, ls@, c),
            forall|c: u64| b <= c < 64 ==> !#[trigger] has_bit(r, c),
        decreases 64 - b,
    {
        if layer_bit(base, ls, b) {
            let old_r = r;
            r = r | (1u64 << b);
            proof {
                lemma_bit_set_same(old_r, b);
                assert forall|c: u64| c < 64 && c != b implies #[trigger] has_bit(r, c) == has_bit(old_r, c) by {
                    lemma_bit_set_other(old_r, b, c);
                }
            }
        }
        b = b + 1;
    }
    r
}

/// Resolves the capability `cap` of `member` in `channel` of `server`.
///
/// The result's bitfield is every capability for the owner and for holders
/// of the administrator bit, and otherwise the OR of the member's roles with
/// the channel's overrides layered over it. Writing additionally needs a
/// channel type that accepts messages from unprivileged members.
pub fn resolve(server: &Server, member: &Member, channel: &Channel, cap: Capability) -> (r:
    Resolution)
    ensures
        resolves_to(r, *server, *member, *channel, cap),
        r.allowed == permits(*server, *member, *channel, cap),
{
    let base = base_of(&server.roles, &member.roles);
    if member.user_id == server.owner_id || base & ADMINISTRATOR != 0 {
        return Resolution { allowed: true, permissions: PERMISSIONS };
    }
    let ls = collect_layers(&server.roles, &member.roles, &channel.permissions);
    let bits = apply_layers(base, &ls);
    let idx = cap.bit();
    proof {
        assert(has_bit(bits, idx) == layered_bit(base, ls@, idx));
    }
    let mut allowed = (bits >> idx) & 1u64 == 1u64;
    if cap == Capability::Write && channel.channel_type == ChannelType::Announcement {
        allowed = false;
    }
    Resolution { allowed, permissions: bits }
}

/// A deny at a higher position beats an allow at a lower position: when
/// layer `h` denies bit `b` without allowing it and no layer above `h` allows
/// or denies `b`, the bit is clear after layering, wherever `h` and the
/// allowing layers stand in `ls`.
pub proof fn lemma_higher_deny_wins(base: u64, ls: Seq<Layer>, b: u64, h: int)
    requires
        0 <= h < ls.len(),
        has_bit(ls[h].deny, b),
        !has_bit(ls[h].allow, b),
        !outranked(ls, b, ls[h].position),
    ensures
        !layered_bit(base, ls, b),
{
    assert(touches(ls[h], b));
    assert forall|i: int|
        0 <= i < ls.len() && has_bit(#[trigger] ls[i].allow, b) && !outranked(ls, b, ls[i].position)
        implies denied_at(ls, b, ls[i].position) by {
        assert(touches(ls[i], b));
        if ls[i].position < ls[h].position {
            assert(touches(ls[h], b) && ls[h].position > ls[i].position);
        }
        assert(ls[i].position == ls[h].position);
    }
}

proof fn lemma_layered_bit_by_elements(base: u64, ls1: Seq<Layer>, ls2: Seq<Layer>, b: u64)
    requires
        forall|x: Layer| ls1.contains(x) ==> ls2.contains(x),
        forall|x: Layer| ls2.contains(x) ==> ls1.contains(x),
        layered_bit(base, ls1, b),
    ensures
        layered_bit(base, ls2, b),
{
    if exists|i: int|
        0 <= i < ls1.len() && has_bit(#[trigger] ls1[i].allow, b) && !outranked(ls1, b, ls1[i].position)
            && !denied_at(ls1, b, ls1[i].position) {
        let i = choose|i: int|
            0 <= i < ls1.len() && has_bit(#[trigger] ls1[i].allow, b) && !outranked(ls1, b, ls1[i].position)
                && !denied_at(ls1, b, ls1[i].position);
        assert(ls1.contains(ls1[i]));
        let k = choose|k: int| 0 <= k < ls2.len() && ls2[k] == ls1[i];
        assert(ls2[k] == ls1[i]);
        if outranked(ls2, b, ls2[k].position) {
            let j = choose|j: int| 0 <= j < ls2.len() && touches(#[trigger] ls2[j], b) && ls2[j].position > ls2[k].position;
            assert(ls2.contains(ls2[j]));
            let j1 = choose|j1: int| 0 <= j1 < ls1.len() && ls1[j1] == ls2[j];
            assert(touches(ls1[j1], b));
        }
        if denied_at(ls2, b, ls2[k].position) {
            let j = choose|j: int| 0 <= j < ls2.len() && refuses(#[trigger] ls2[j], b) && ls2[j].position == ls2[k].position;
            assert(ls2.contains(ls2[j]));
            let j1 = choose|j1: int| 0 <= j1 < ls1.len() && ls1[j1] == ls2[j];
            assert(refuses(ls1[j1], b));
        }
    } else {
        assert forall|i: int| 0 <= i < ls2.len() implies !touches(#[trigger] ls2[i], b) by {
            assert(ls2.contains(ls2[i]));
            let j1 = choose|j1: int| 0 <= j1 < ls1.len() && ls1[j1] == ls2[i];
            assert(!touches(ls1[j1], b));
        }
    }
}

/// Layering depends on which layers there are, not on their order: two
/// sequences holding the same layers give the same bit everywhere.
pub proof fn lemma_layer_order_irrelevant(base: u64, ls1: Seq<Layer>, ls2: Seq<Layer>, b: u64)
    requires
        forall|x: Layer| ls1.contains(x) <==> ls2.contains(x),
    ensures
        layered_bit(base, ls1, b) == layered_bit(base, ls2, b),
{
    if layered_bit(base, ls1, b) {
        lemma_layered_bit_by_elements(base, ls1, ls2, b);
    }
    if layered_bit(base, ls2, b) {
        lemma_layered_bit_by_elements(base, ls2, ls1, b);
    }
}

/// `base` with the layers of `ls` applied in order, each as
/// `(bits & !deny) | allow`.
pub open spec fn fold_layers(base: u64, ls: Seq<Layer>) -> u64
    decreases ls.len(),
{
    if ls.len() == 0 {
        base
    } else {
        let l = ls.last();
        (fold_layers(base, ls.drop_last()) & !l.deny) | l.allow
    }
}

proof fn lemma_step_allowed(x: u64, a: u64, d: u64, b: u64)
    by (bit_vector)
    requires
        b < 64,
        (a >> b) & 1u64 == 1u64,
    ensures
        (((x & !d) | a) >> b) & 1u64 == 1u64,
{
}

proof fn lemma_step_denied(x: u64, a: u64, d: u64, b: u64)
    by (bit_vector)
    requires
        b < 64,
        (a >> b) & 1u64 != 1u64,
        (d >> b) & 1u64 == 1u64,
    ensures
        (((x & !d) | a) >> b) & 1u64 != 1u64,
{
}

proof fn lemma_step_untouched(x: u64, a: u64, d: u64, b: u64)
    by (bit_vector)
    requires
        b < 64,
        (a >> b) & 1u64 != 1u64,
        (d >> b) & 1u64 != 1u64,
    ensures
        (((x & !d) | a) >> b) & 1u64 == (x >> b) & 1u64,
{
}

/// Layering by position is applying the overrides one after the other,
/// lowest position first: for layers in strictly ascending position, each
/// bit of the layered result is that of `fold_layers`.
pub proof fn lemma_layering_is_ascending_fold(base: u64, ls: Seq<Layer>, b: u64)
    requires
        b < 64,
        forall|i: int, j: int| 0 <= i < j < ls.len() ==> ls[i].position < ls[j].position,
    ensures
        has_bit(fold_layers(base, ls), b) == layered_bit(base, ls, b),
    decreases ls.len(),
{
    if ls.len() > 0 {
        let prev = ls.drop_last();
        let n = ls.len() - 1;
        let l = ls[n];
        assert(ls.last() == l);
        assert forall|i: int, j: int| 0 <= i < j < prev.len() implies prev[i].position < prev[j].position by {
            assert(prev[i] == ls[i] && prev[j] == ls[j]);
        }
        lemma_layering_is_ascending_fold(base, prev, b);
        let x = fold_layers(base, prev);
        assert(fold_layers(base, ls) == (x & !l.deny) | l.allow);
        if has_bit(l.allow, b) {
            lemma_step_allowed(x, l.allow, l.deny, b);
            assert(!outranked(ls, b, l.position));
            assert(!denied_at(ls, b, l.position)) by {
                if denied_at(ls, b, l.position) {
                    let j = choose|j: int| 0 <= j < ls.len() && refuses(#[trigger] ls[j], b) && ls[j].position == l.position;
                    assert(j == n);
                }
            }
        } else if has_bit(l.deny, b) {
            lemma_step_denied(x, l.allow, l.deny, b);
            lemma_higher_deny_wins(base, ls, b, n);
        } else {
            lemma_step_untouched(x, l.allow, l.deny, b);
            assert(!touches(l, b));
            if layered_bit(base, prev, b) {
                if exists|i: int|
                    0 <= i < prev.len() && has_bit(#[trigger] prev[i].allow, b) && !outranked(prev, b, prev[i].position)
                        && !denied_at(prev, b, prev[i].position) {
                    let i = choose|i: int|
                        0 <= i < prev.len() && has_bit(#[trigger] prev[i].allow, b) && !outranked(prev, b, prev[i].position)
                            && !denied_at(prev, b, prev[i].position);
                    assert(prev[i] == ls[i]);
                    assert(!outranked(ls, b, ls[i].position)) by {
                        if outranked(ls, b, ls[i].position) {
                            let j = choose|j: int| 0 <= j < ls.len() && touches(#[trigger] ls[j], b) && ls[j].position > ls[i].position;
                            assert(j != n);
                            assert(prev[j] == ls[j]);
                        }
                    }
                    assert(!denied_at(ls, b, ls[i].position)) by {
                        if denied_at(ls, b, ls[i].position) {
                            let j = choose|j: int| 0 <= j < ls.len() && refuses(#[trigger] ls[j], b) && ls[j].position == ls[i].position;
                            assert(j != n);
                            assert(prev[j] == ls[j]);
                        }
                    }
                } else {
                    assert forall|i: int| 0 <= i < ls.len() implies !touches(#[trigger] ls[i], b) by {
                        if i < n {
                            assert(prev[i] == ls[i]);
                        }
                    }
                }
            } else {
                if layered_bit(base, ls, b) {
                    if exists|i: int|
                        0 <= i < ls.len() && has_bit(#[trigger] ls[i].allow, b) && !outranked(ls, b, ls[i].position)
                            && !denied_at(ls, b, ls[i].position) {
                        let i = choose|i: int|
                            0 <= i < ls.len() && has_bit(#[trigger] ls[i].allow, b) && !outranked(ls, b, ls[i].position)
                                && !denied_at(ls, b, ls[i].position);
                        assert(i != n);
                        assert(prev[i] == ls[i]);
                        assert(!outranked(prev, b, prev[i].position)) by {
                            if outranked(prev, b, prev[i].position) {
                                let j = choose|j: int| 0 <= j < prev.len() && touches(#[trigger] prev[j], b) && prev[j].position > prev[i].position;
                                assert(prev[j] == ls[j]);
                            }
                        }
                        assert(!denied_at(prev, b, prev[i].position)) by {
                            if denied_at(prev, b, prev[i].position) {
                                let j = choose|j: int| 0 <= j < prev.len() && refuses(#[trigger] prev[j], b) && prev[j].position == prev[i].position;
                                assert(prev[j] == ls[j]);
                            }
                        }
                    } else {
                        assert forall|i: int| 0 <= i < prev.len() implies !touches(#[trigger] prev[i], b) by {
                            assert(prev[i] == ls[i]);
                        }
                    }
                }
            }
        }
    }
}

proof fn lemma_layers_of_elements(roles: Seq<Role>, held: Seq<u64>, ovs: Seq<PermissionOverride>, x: Layer)
    ensures
        layers_of(roles, held, ovs).contains(x) <==> exists|k: int|
            0 <= k < ovs.len() && layer_of(roles, held, #[trigger] ovs[k]) == Some(x),
    decreases ovs.len(),
{
    if ovs.len() > 0 {
        let prev = ovs.drop_last();
        lemma_layers_of_elements(roles, held, prev, x);
        let rest = layers_of(roles, held, prev);
        let ls = layers_of(roles, held, ovs);
        let n = ovs.len() - 1;
        if ls.contains(x) {
            if rest.contains(x) {
                let k = choose|k: int| 0 <= k < prev.len() && layer_of(roles, held, #[trigger] prev[k]) == Some(x);
                assert(ovs[k] == prev[k]);
            } else {
                let i = choose|i: int| 0 <= i < ls.len() && ls[i] == x;
                if layer_of(roles, held, ovs[n]) is Some {
                    assert(ls == rest.push(layer_of(roles, held, ovs[n])->0));
                    if i < rest.len() {
                        assert(rest[i] == x);
                    }
                } else {
                    assert(ls == rest);
                }
                assert(layer_of(roles, held, ovs[n]) == Some(x));
            }
        }
        if exists|k: int| 0 <= k < ovs.len() && layer_of(roles, held, #[trigger] ovs[k]) == Some(x) {
            let k = choose|k: int| 0 <= k < ovs.len() && layer_of(roles, held, #[trigger] ovs[k]) == Some(x);
            if k < n {
                assert(prev[k] == ovs[k]);
                let i = choose|i: int| 0 <= i < rest.len() && rest[i] == x;
                if layer_of(roles, held, ovs[n]) is Some {
                    assert(ls == rest.push(layer_of(roles, held, ovs[n])->0));
                    assert(ls[i] == x);
                } else {
                    assert(ls == rest);
                }
            } else {
                assert(ls == rest.push(x));
                assert(ls[rest.len() as int] == x);
            }
        }
    }
}

/// The order of a channel's overrides does not matter: two channels of the
/// same type whose override lists hold the same overrides, in any order,
/// give a member the same decision and the same bitfield.
pub proof fn lemma_override_order_irrelevant(
    server: Server,
    member: Member,
    c1: Channel,
    c2: Channel,
    cap: Capability,
    b: u64,
)
    requires
        c1.channel_type == c2.channel_type,
        forall|o: PermissionOverride| c1.permissions@.contains(o) <==> c2.permissions@.contains(o),
    ensures
        permits(server, member, c1, cap) == permits(server, member, c2, cap),
        layered_bit(
            base_permissions(server.roles@, member.roles@),
            layers_of(server.roles@, member.roles@, c1.permissions@),
            b,
        ) == layered_bit(
            base_permissions(server.roles@, member.roles@),
            layers_of(server.roles@, member.roles@, c2.permissions@),
            b,
        ),
{
    let roles = server.roles@;
    let held = member.roles@;
    let base = base_permissions(roles, held);
    let l1 = layers_of(roles, held, c1.permissions@);
    let l2 = layers_of(roles, held, c2.permissions@);
    assert forall|x: Layer| l1.contains(x) <==> l2.contains(x) by {
        lemma_layers_of_elements(roles, held, c1.permissions@, x);
        lemma_layers_of_elements(roles, held, c2.permissions@, x);
        if l1.contains(x) {
            let k = choose|k: int| 0 <= k < c1.permissions@.len() && layer_of(roles, held, #[trigger] c1.permissions@[k]) == Some(x);
            assert(c1.permissions@.contains(c1.permissions@[k]));
            let m = choose|m: int| 0 <= m < c2.permissions@.len() && c2.permissions@[m] == c1.permissions@[k];
            assert(layer_of(roles, held, c2.permissions@[m]) == Some(x));
        }
        if l2.contains(x) {
            let k = choose|k: int| 0 <= k < c2.permissions@.len() && layer_of(roles, held, #[trigger] c2.permissions@[k]) == Some(x);
            assert(c2.permissions@.contains(c2.permissions@[k]));
            let m = choose|m: int| 0 <= m < c1.permissions@.len() && c1.permissions@[m] == c2.permissions@[k];
            assert(layer_of(roles, held, c1.permissions@[m]) == Some(x));
        }
    }
    lemma_layer_order_irrelevant(base, l1, l2, b);
    lemma_layer_order_irrelevant(base, l1, l2, cap.bit_index());
}

proof fn lemma_or_both(x: u64, y: u64, p: u64)
    by (bit_vector)
    requires
        x | y == y,
    ensures
        (x | p) | (y | p) == y | p,
        x | (y | p) == y | p,
{
}

proof fn lemma_or_bit(x: u64, y: u64, b: u64)
    by (bit_vector)
    requires
        b < 64,
        x | y == y,
        (x >> b) & 1u64 == 1u64,
    ensures
        (y >> b) & 1u64 == 1u64,
{
}

proof fn lemma_or_admin(x: u64, y: u64)
    by (bit_vector)
    requires
        x | y == y,
        x & 0x80u64 != 0,
    ensures
        y & 0x80u64 != 0,
{
}

proof fn lemma_or_antisym(x: u64, y: u64)
    by (bit_vector)
    requires
        x | y == y,
        y | x == x,
    ensures
        x == y,
{
}

/// Holding more roles never loses a bit of the base bitfield.
proof fn lemma_base_grows(roles: Seq<Role>, h1: Seq<u64>, h2: Seq<u64>)
    requires
        forall|id: u64| h1.contains(id) ==> h2.contains(id),
    ensures
        base_permissions(roles, h1) | base_permissions(roles, h2) == base_permissions(roles, h2),
    decreases roles.len(),
{
    if roles.len() == 0 {
        assert(0u64 | 0u64 == 0u64) by (bit_vector);
    } else {
        lemma_base_grows(roles.drop_last(), h1, h2);
        let x = base_permissions(roles.drop_last(), h1);
        let y = base_permissions(roles.drop_last(), h2);
        lemma_or_both(x, y, roles.last().permissions);
    }
}

/// The layers depend on the held roles only through the overrides' roles.
proof fn lemma_layers_same(roles: Seq<Role>, h1: Seq<u64>, h2: Seq<u64>, ovs: Seq<PermissionOverride>)
    requires
        forall|k: int| 0 <= k < ovs.len() ==> (h1.contains(#[trigger] ovs[k].role_id) <==> h2.contains(ovs[k].role_id)),
    ensures
        layers_of(roles, h1, ovs) == layers_of(roles, h2, ovs),
    decreases ovs.len(),
{
    if ovs.len() > 0 {
        let prev = ovs.drop_last();
        assert forall|k: int| 0 <= k < prev.len() implies (h1.contains(#[trigger] prev[k].role_id) <==> h2.contains(prev[k].role_id)) by {
            assert(prev[k] == ovs[k]);
        }
        lemma_layers_same(roles, h1, h2, prev);
        assert(ovs.last() == ovs[ovs.len() - 1]);
    }
}

/// Permissions are additive across roles: a member with the same user id
/// who holds every role of `m1`, and more roles none of which has an
/// override on `channel`, may do whatever `m1` may.
pub proof fn lemma_more_roles_permit_more(
    server: Server,
    m1: Member,
    m2: Member,
    channel: Channel,
    cap: Capability,
)
    requires
        m1.user_id == m2.user_id,
        forall|id: u64| m1.roles@.contains(id) ==> m2.roles@.contains(id),
        forall|k: int|
            0 <= k < channel.permissions@.len() ==> (m1.roles@.contains(
                #[trigger] channel.permissions@[k].role_id,
            ) <==> m2.roles@.contains(channel.permissions@[k].role_id)),
        permits(server, m1, channel, cap),
    ensures
        permits(server, m2, channel, cap),
{
    let roles = server.roles@;
    let x = base_permissions(roles, m1.roles@);
    let y = base_permissions(roles, m2.roles@);
    lemma_base_grows(roles, m1.roles@, m2.roles@);
    lemma_layers_same(roles, m1.roles@, m2.roles@, channel.permissions@);
    if !privileged(server, m2) {
        if x & ADMINISTRATOR != 0 {
            lemma_or_admin(x, y);
        }
        let ls = layers_of(roles, m1.roles@, channel.permissions@);
        let b = cap.bit_index();
        if (forall|i: int| 0 <= i < ls.len() ==> !touches(#[trigger] ls[i], b)) && has_bit(x, b) {
            lemma_or_bit(x, y, b);
        }
    }
}

/// The order of the member's role ids does not matter, nor does a role id
/// listed twice: two memberships of one user holding the same roles get the
/// same base bitfield, the same layers and the same decision.
pub proof fn lemma_member_role_order_irrelevant(
    server: Server,
    m1: Member,
    m2: Member,
    channel: Channel,
    cap: Capability,
)
    requires
        m1.user_id == m2.user_id,
        forall|id: u64| m1.roles@.contains(id) <==> m2.roles@.contains(id),
    ensures
        base_permissions(server.roles@, m1.roles@) == base_permissions(server.roles@, m2.roles@),
        layers_of(server.roles@, m1.roles@, channel.permissions@) == layers_of(
            server.roles@,
            m2.roles@,
            channel.permissions@,
        ),
        permits(server, m1, channel, cap) == permits(server, m2, channel, cap),
{
    lemma_base_grows(server.roles@, m1.roles@, m2.roles@);
    lemma_base_grows(server.roles@, m2.roles@, m1.roles@);
    lemma_or_antisym(
        base_permissions(server.roles@, m1.roles@),
        base_permissions(server.roles@, m2.roles@),
    );
    lemma_layers_same(server.roles@, m1.roles@, m2.roles@, channel.permissions@);
}

/// A deny at a higher position refuses the capability, whatever the order of
/// the channel's overrides and of the member's roles: when the member is not
/// privileged, holds the role of override `k` of `channel`, which denies the
/// capability's bit without allowing it, and no override of a held role
/// defined above that role's position mentions the bit, the member may not
/// use the capability. Subscribing and publishing are refused accordingly.
pub proof fn lemma_higher_deny_refuses(
    server: Server,
    member: Member,
    channel: Channel,
    cap: Capability,
    k: int,
)
    requires
        !privileged(server, member),
        0 <= k < channel.permissions@.len(),
        member.roles@.contains(channel.permissions@[k].role_id),
        role_position(server.roles@, channel.permissions@[k].role_id) is Some,
        has_bit(channel.permissions@[k].deny, cap.bit_index()),
        !has_bit(channel.permissions@[k].allow, cap.bit_index()),
        forall|j: int|
            0 <= j < channel.permissions@.len() && member.roles@.contains(
                #[trigger] channel.permissions@[j].role_id,
            ) && role_position(server.roles@, channel.permissions@[j].role_id) is Some
                && role_position(server.roles@, channel.permissions@[j].role_id)->0 > role_position(
                server.roles@,
                channel.permissions@[k].role_id,
            )->0 ==> !has_bit(channel.permissions@[j].allow, cap.bit_index()) && !has_bit(
                channel.permissions@[j].deny,
                cap.bit_index(),
            ),
    ensures
        !permits(server, member, channel, cap),
{
    let roles = server.roles@;
    let held = member.roles@;
    let ovs = channel.permissions@;
    let b = cap.bit_index();
    let ls = layers_of(roles, held, ovs);
    let h = layer_of(roles, held, ovs[k])->0;
    lemma_layers_of_elements(roles, held, ovs, h);
    let hi = choose|i: int| 0 <= i < ls.len() && ls[i] == h;
    assert(!outranked(ls, b, h.position)) by {
        if outranked(ls, b, h.position) {
            let j = choose|j: int| 0 <= j < ls.len() && touches(#[trigger] ls[j], b) && ls[j].position > h.position;
            lemma_layers_of_elements(roles, held, ovs, ls[j]);
            assert(ls.contains(ls[j]));
            let kk = choose|kk: int| 0 <= kk < ovs.len() && layer_of(roles, held, #[trigger] ovs[kk]) == Some(ls[j]);
            assert(held.contains(ovs[kk].role_id));
        }
    }
    lemma_higher_deny_wins(
        base_permissions(roles, held),
        ls,
        b,
        hi,
    );
}

} // verus!
