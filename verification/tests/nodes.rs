use kl::ast::{Node, Record, Tuple, Variable};
use kl::hash::{hash_bytes, Fnv1a};

fn member(name: &str, kind: &str) -> Variable {
    Variable::new(name.as_bytes(), kind.as_bytes(), b"")
}

#[test]
fn a_variable_is_assembled_from_its_texts() {
    let variable = Variable::new(b"x", b"int", b"5");
    assert_eq!(variable.id, 0xaf63_f54c_8602_1707);
    assert_eq!(variable.kind, 0x2b9f_ff19_2bd4_c83e);
    assert_eq!(variable.value, b"5".to_vec());
    assert_eq!(
        variable,
        Variable { id: hash_bytes(b"x"), kind: hash_bytes(b"int"), value: vec![0x35] }
    );
}

#[test]
fn a_variable_without_value_has_an_empty_payload() {
    let variable = Variable::new(b"x", b"int", b"");
    assert!(variable.value.is_empty());
}

#[test]
fn a_record_is_named_by_the_hash_of_its_name() {
    let record = Record::new(b"Point", vec![member("x", "int"), member("y", "int")]);
    assert_eq!(record.kind, 0x8a43_9296_ced9_ed11);
    assert_eq!(record.members, vec![member("x", "int"), member("y", "int")]);
}

#[test]
fn a_tuple_is_named_by_the_types_of_its_members() {
    let tuple = Tuple::new(vec![member("x", "int"), member("y", "int")]);
    assert_eq!(tuple.kind, 0x9047_6218_8e7c_a2dd);
    assert_eq!(tuple.members.len(), 2);

    let renamed = Tuple::new(vec![member("a", "int"), member("b", "int")]);
    assert_eq!(renamed.kind, tuple.kind);

    let single = Tuple::new(vec![member("x", "int")]);
    assert_eq!(single.kind, 0xe33d_ce93_8b34_048c);
    assert_ne!(single.kind, tuple.kind);
}

#[test]
fn the_order_of_member_types_matters_to_a_tuple() {
    let one = Tuple::new(vec![member("a", "int"), member("b", "bool")]);
    let other = Tuple::new(vec![member("a", "bool"), member("b", "int")]);
    assert_ne!(one.kind, other.kind);
}

#[test]
fn an_empty_tuple_is_named_by_the_offset_basis() {
    let tuple = Tuple::new(Vec::new());
    assert_eq!(tuple.kind, 0xcbf2_9ce4_8422_2325);
    assert!(tuple.members.is_empty());
}

#[test]
fn a_variable_feeds_name_then_type() {
    let mut state = Fnv1a::new();
    member("x", "int").hash(&mut state);
    assert_eq!(state.finish(), 0xa915_2236_6fac_39cb);

    let mut by_hand = Fnv1a::new();
    by_hand.write_u64(hash_bytes(b"x"));
    by_hand.write_u64(hash_bytes(b"int"));
    assert_eq!(state.finish(), by_hand.finish());
}

#[test]
fn the_value_plays_no_part_in_the_digest_of_a_variable() {
    let mut plain = Fnv1a::new();
    Variable::new(b"x", b"int", b"").hash(&mut plain);
    let mut initialized = Fnv1a::new();
    Variable::new(b"x", b"int", b"5").hash(&mut initialized);
    assert_eq!(plain.finish(), initialized.finish());
}

#[test]
fn a_record_feeds_its_name_then_its_members() {
    let record = Record::new(b"Point", vec![member("x", "int"), member("y", "int")]);
    let mut state = Fnv1a::new();
    record.hash(&mut state);
    assert_eq!(state.finish(), 0xe721_64b4_120b_ad3b);

    let swapped = Record::new(b"Point", vec![member("y", "int"), member("x", "int")]);
    let mut other = Fnv1a::new();
    swapped.hash(&mut other);
    assert_ne!(state.finish(), other.finish());
}

#[test]
fn an_empty_record_feeds_only_its_name() {
    let record = Record::new(b"Empty", Vec::new());
    let mut state = Fnv1a::new();
    record.hash(&mut state);
    let mut by_hand = Fnv1a::new();
    by_hand.write_u64(0x500f_d71a_4232_050e);
    assert_eq!(state.finish(), by_hand.finish());
}

#[test]
fn nodes_compare_by_content() {
    let left = Node::Variable(member("x", "int"));
    let right = Node::Variable(member("x", "int"));
    assert_eq!(left, right);
    assert_ne!(left, Node::Variable(member("y", "int")));
    assert_ne!(
        Node::Record(Record::new(b"P", Vec::new())),
        Node::Tuple(Tuple { kind: hash_bytes(b"P"), members: Vec::new() })
    );
}
