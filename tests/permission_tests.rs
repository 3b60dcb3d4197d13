use chat_core::models::{create_server, Channel, ChannelType, Member, PermissionOverride, Role, Server, EVERYONE_PERMISSIONS};
use chat_core::permission::{
    apply_layers, base_of, collect_layers, layer_bit, position_of, resolve, Capability, Layer,
    ADMINISTRATOR, PERMISSIONS, READ, WRITE,
};

fn role(id: u64, permissions: u64, position: i32) -> Role {
    Role {
        role_id: id,
        name: format!("role{}", id),
        permissions,
        color: "#ffffff".to_string(),
        position,
    }
}

fn server(owner: u64, roles: Vec<Role>) -> Server {
    Server {
        id: 1,
        name: "srv".to_string(),
        icon_url: None,
        owner_id: owner,
        roles,
        channels: vec![10],
        members: vec![],
        created_at: 0,
    }
}

fn channel(kind: ChannelType, overrides: Vec<PermissionOverride>) -> Channel {
    Channel {
        id: 10,
        server_id: 1,
        name: "general".to_string(),
        channel_type: kind,
        topic: None,
        position: 0,
        permissions: overrides,
        created_at: 0,
    }
}

fn member(user: u64, roles: Vec<u64>) -> Member {
    Member { user_id: user, roles, joined_at: 0 }
}

#[test]
fn higher_position_deny_hides_channel() {
    let srv = server(99, vec![role(1, READ, 0), role(2, 0, 1)]);
    let ch = channel(ChannelType::Text, vec![PermissionOverride { role_id: 2, allow: 0, deny: READ }]);
    let m = member(5, vec![1, 2]);
    let r = resolve(&srv, &m, &ch, Capability::Read);
    assert!(!r.allowed);
    assert_eq!(r.permissions & READ, 0);
}

#[test]
fn roles_are_additive() {
    let srv = server(99, vec![role(1, READ, 0), role(2, WRITE, 1)]);
    let ch = channel(ChannelType::Text, vec![]);
    let m = member(5, vec![1, 2]);
    let r = resolve(&srv, &m, &ch, Capability::Write);
    assert!(r.allowed);
    assert_eq!(r.permissions, READ | WRITE);
    assert_eq!(base_of(&srv.roles, &m.roles), READ | WRITE);
}

#[test]
fn unheld_roles_do_not_count() {
    let srv = server(99, vec![role(1, READ, 0), role(2, WRITE, 1)]);
    let ch = channel(ChannelType::Text, vec![]);
    let m = member(5, vec![1]);
    assert!(!resolve(&srv, &m, &ch, Capability::Write).allowed);
    assert!(resolve(&srv, &m, &ch, Capability::Read).allowed);
}

#[test]
fn higher_allow_beats_lower_deny() {
    let srv = server(99, vec![role(1, READ, 0), role(2, 0, 3)]);
    let ch = channel(
        ChannelType::Text,
        vec![
            PermissionOverride { role_id: 2, allow: WRITE, deny: 0 },
            PermissionOverride { role_id: 1, allow: 0, deny: WRITE },
        ],
    );
    let m = member(5, vec![1, 2]);
    let r = resolve(&srv, &m, &ch, Capability::Write);
    assert!(r.allowed);
    assert_eq!(r.permissions, READ | WRITE);
}

#[test]
fn higher_deny_wins_in_any_override_order() {
    let srv = server(99, vec![role(1, READ | WRITE, 0), role(2, 0, 4)]);
    let a = PermissionOverride { role_id: 1, allow: WRITE, deny: 0 };
    let b = PermissionOverride { role_id: 2, allow: 0, deny: WRITE };
    let m = member(5, vec![1, 2]);
    let r1 = resolve(&srv, &m, &channel(ChannelType::Text, vec![a, b]), Capability::Write);
    let r2 = resolve(&srv, &m, &channel(ChannelType::Text, vec![b, a]), Capability::Write);
    assert!(!r1.allowed);
    assert!(!r2.allowed);
    assert_eq!(r1, r2);
    assert_eq!(r1.permissions, READ);
}

#[test]
fn deny_wins_at_equal_position() {
    let srv = server(99, vec![role(1, 0, 2), role(2, 0, 2)]);
    let ch = channel(
        ChannelType::Text,
        vec![
            PermissionOverride { role_id: 1, allow: READ, deny: 0 },
            PermissionOverride { role_id: 2, allow: 0, deny: READ },
        ],
    );
    let m = member(5, vec![1, 2]);
    assert!(!resolve(&srv, &m, &ch, Capability::Read).allowed);
}

#[test]
fn owner_bypasses_overrides() {
    let srv = server(5, vec![role(1, 0, 0)]);
    let ch = channel(
        ChannelType::Announcement,
        vec![PermissionOverride { role_id: 1, allow: 0, deny: READ | WRITE }],
    );
    let m = member(5, vec![1]);
    let r = resolve(&srv, &m, &ch, Capability::Write);
    assert!(r.allowed);
    assert_eq!(r.permissions, PERMISSIONS);
}

#[test]
fn administrator_bypasses_overrides() {
    let srv = server(99, vec![role(1, ADMINISTRATOR, 0)]);
    let ch = channel(
        ChannelType::Text,
        vec![PermissionOverride { role_id: 1, allow: 0, deny: READ }],
    );
    let m = member(5, vec![1]);
    let r = resolve(&srv, &m, &ch, Capability::Read);
    assert!(r.allowed);
    assert_eq!(r.permissions, PERMISSIONS);
}

#[test]
fn announcement_rejects_unprivileged_writers() {
    let srv = server(99, vec![role(1, READ | WRITE, 0)]);
    let ch = channel(ChannelType::Announcement, vec![]);
    let m = member(5, vec![1]);
    let w = resolve(&srv, &m, &ch, Capability::Write);
    assert!(!w.allowed);
    assert_eq!(w.permissions, READ | WRITE);
    assert!(resolve(&srv, &m, &ch, Capability::Read).allowed);
}

#[test]
fn voice_channel_accepts_writers_with_the_bit() {
    let srv = server(99, vec![role(1, READ | WRITE, 0)]);
    let ch = channel(ChannelType::Voice, vec![]);
    assert!(resolve(&srv, &member(5, vec![1]), &ch, Capability::Write).allowed);
}

#[test]
fn override_of_undefined_role_is_ignored() {
    let srv = server(99, vec![role(1, READ, 0)]);
    let ch = channel(
        ChannelType::Text,
        vec![PermissionOverride { role_id: 7, allow: 0, deny: READ }],
    );
    let m = member(5, vec![1, 7]);
    assert!(resolve(&srv, &m, &ch, Capability::Read).allowed);
    assert_eq!(collect_layers(&srv.roles, &m.roles, &ch.permissions).len(), 0);
}

#[test]
fn first_role_definition_gives_the_position() {
    let roles = vec![role(1, 0, 4), role(2, 0, 6), role(1, 0, 9)];
    assert_eq!(position_of(&roles, 1), Some(4));
    assert_eq!(position_of(&roles, 2), Some(6));
    assert_eq!(position_of(&roles, 3), None);
}

#[test]
fn layering_bit_by_bit() {
    let ls = vec![
        Layer { position: 0, allow: 0b0100, deny: 0b0001 },
        Layer { position: 2, allow: 0b0001, deny: 0b1000 },
    ];
    assert_eq!(apply_layers(0b1010, &ls), 0b0111);
    assert!(layer_bit(0b1010, &ls, 0));
    assert!(!layer_bit(0b1010, &ls, 3));
    assert!(layer_bit(0b1010, &ls, 1));
    assert!(layer_bit(0, &ls, 2));
    assert_eq!(apply_layers(0b1010, &vec![]), 0b1010);
}

#[test]
fn high_bits_survive_layering() {
    let ls = vec![Layer { position: 1, allow: 1u64 << 63, deny: 1 }];
    assert_eq!(apply_layers(1, &ls), 1u64 << 63);
}

#[test]
fn new_server_has_everyone_role_and_owner() {
    let srv = create_server(100, "lounge".to_string(), 5, 77, 1_700_000_000);
    assert_eq!(srv.id, 100);
    assert_eq!(srv.name, "lounge");
    assert_eq!(srv.owner_id, 5);
    assert_eq!(srv.roles.len(), 1);
    assert_eq!(srv.roles[0].role_id, 77);
    assert_eq!(srv.roles[0].name, "@everyone");
    assert_eq!(srv.roles[0].color, "#ffffff");
    assert_eq!(srv.roles[0].permissions, EVERYONE_PERMISSIONS);
    assert_eq!(srv.roles[0].position, 0);
    assert_eq!(srv.members.len(), 1);
    assert_eq!(srv.members[0].user_id, 5);
    assert!(srv.members[0].roles.is_empty());
    assert_eq!(srv.created_at, 1_700_000_000);
    assert!(srv.channels.is_empty());
    let ch = channel(ChannelType::Text, vec![]);
    assert!(resolve(&srv, &srv.members[0], &ch, Capability::Write).allowed);
    let guest = member(6, vec![77]);
    assert!(resolve(&srv, &guest, &ch, Capability::Read).allowed);
    assert!(!resolve(&srv, &guest, &ch, Capability::Write).allowed);
}

#[test]
fn override_allow_beats_its_own_deny() {
    let srv = server(99, vec![role(1, 0, 0)]);
    let ch = channel(
        ChannelType::Text,
        vec![PermissionOverride { role_id: 1, allow: READ | WRITE, deny: READ | WRITE }],
    );
    let m = member(5, vec![1]);
    let r = resolve(&srv, &m, &ch, Capability::Read);
    assert!(r.allowed);
    assert_eq!(r.permissions, READ | WRITE);
    assert!(resolve(&srv, &m, &ch, Capability::Write).allowed);
}

#[test]
fn another_roles_deny_wins_at_equal_position_over_allow_and_deny() {
    let srv = server(99, vec![role(1, 0, 2), role(2, 0, 2)]);
    let ch = channel(
        ChannelType::Text,
        vec![
            PermissionOverride { role_id: 1, allow: READ, deny: READ },
            PermissionOverride { role_id: 2, allow: 0, deny: READ },
        ],
    );
    assert!(!resolve(&srv, &member(5, vec![1, 2]), &ch, Capability::Read).allowed);
    assert!(resolve(&srv, &member(5, vec![1]), &ch, Capability::Read).allowed);
}

#[test]
fn member_role_order_does_not_matter() {
    let srv = server(99, vec![role(1, READ | WRITE, 0), role(2, 0, 1)]);
    let ch = channel(ChannelType::Text, vec![PermissionOverride { role_id: 2, allow: 0, deny: WRITE }]);
    let a = resolve(&srv, &member(5, vec![1, 2]), &ch, Capability::Write);
    let b = resolve(&srv, &member(5, vec![2, 1, 2]), &ch, Capability::Write);
    assert_eq!(a, b);
    assert!(!a.allowed);
    assert_eq!(a.permissions, READ);
}

#[test]
fn an_extra_role_only_adds() {
    let srv = server(99, vec![role(1, READ, 0), role(3, WRITE, 5)]);
    let ch = channel(ChannelType::Text, vec![]);
    assert!(!resolve(&srv, &member(5, vec![1]), &ch, Capability::Write).allowed);
    assert!(resolve(&srv, &member(5, vec![1, 3]), &ch, Capability::Write).allowed);
    assert!(resolve(&srv, &member(5, vec![1, 3]), &ch, Capability::Read).allowed);
}

#[test]
fn layering_matches_the_ascending_fold() {
    let ls = vec![
        Layer { position: 0, allow: 0b0110, deny: 0b0011 },
        Layer { position: 1, allow: 0b1000, deny: 0b1100 },
    ];
    let base: u64 = 0b0001;
    let mut acc = base;
    for l in &ls {
        acc = (acc & !l.deny) | l.allow;
    }
    assert_eq!(apply_layers(base, &ls), acc);
    assert_eq!(acc, 0b1010);
}
