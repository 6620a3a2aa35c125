use mstu::runtime::mapper::{Mapper, Mapping, Path, MAX_PATH};

fn both_fields() -> Mapper {
    let mut mapper = Mapper::new();

    mapper.add(Mapping {
        input: vec![0],
        output: vec![0],
    });

    mapper.add(Mapping {
        input: vec![1],
        output: vec![1],
    });

    mapper
}

#[test]
fn recognises_an_identity_mapping() {
    let mapper = both_fields();
    assert!(mapper.identity());

    let mut crossed = Mapper::new();

    crossed.add(Mapping {
        input: vec![1],
        output: vec![0],
    });

    assert!(!crossed.identity());
}

#[test]
fn a_nested_mapping_is_no_identity() {
    let mut mapper = Mapper::new();
    mapper.add(Mapping { input: vec![0, 1], output: vec![0] });
    assert!(!mapper.identity());
}

#[test]
fn removes_what_fills_a_field() {
    let mut mapper = both_fields();
    mapper.add(Mapping { input: vec![2, 1], output: vec![2] });
    assert_eq!(mapper.len(), 3);

    assert!(mapper.remove(&[1]));
    assert_eq!(mapper.len(), 2);
    assert!(!mapper.iter().iter().any(|m| m.output == vec![1]));
    assert_eq!(mapper.iter()[0].output, vec![0]);
    assert_eq!(mapper.iter()[1].output, vec![2]);

    assert!(!mapper.remove(&[1]));
    assert_eq!(mapper.len(), 2);
}

#[test]
fn adding_then_removing_leaves_the_rest() {
    let mut mapper = both_fields();
    mapper.add(Mapping { input: vec![5], output: vec![7] });
    assert!(mapper.remove(&[7]));
    assert_eq!(mapper.len(), 2);
    assert!(mapper.identity());
}

#[test]
fn an_empty_mapper_is_the_identity() {
    let mapper = Mapper::new();
    assert!(mapper.is_empty());
    assert!(mapper.identity());
}

#[test]
fn a_path_holds_its_steps() {
    let path = Path::new(&[2, 4, 1]).unwrap();
    assert_eq!(path.as_slice(), &[2, 4, 1]);
    assert!(Path::new(&[]).is_none());
    assert!(Path::new(&[0; MAX_PATH + 1]).is_none());
    assert!(Path::new(&[1usize << 33]).is_none());
    assert_eq!(Path::new(&[0; MAX_PATH]).unwrap().as_slice().len(), MAX_PATH);
}

/// Kinds of a frame's fields, by code: an unsigned id, then bytes.
const UINT: u32 = 2;
const BYTES: u32 = 5;

/// A mapping that fills every field with the right kind needs no checking
/// per message; one that leaves a field empty does.
#[test]
fn knows_when_a_message_needs_no_checking() {
    let shape = [UINT, BYTES];

    assert!(both_fields().covers(&shape, &shape));

    let mut partial = Mapper::new();

    partial.add(Mapping {
        input: vec![0],
        output: vec![0],
    });

    assert!(!partial.covers(&shape, &shape));

    // Right fields, wrong types: bytes into a u64.
    let mut crossed = Mapper::new();

    crossed.add(Mapping {
        input: vec![1],
        output: vec![0],
    });

    crossed.add(Mapping {
        input: vec![0],
        output: vec![1],
    });

    assert!(!crossed.covers(&shape, &shape));
}

#[test]
fn a_nested_step_is_checked_per_message() {
    let mut nested = Mapper::new();
    nested.add(Mapping {
        input: vec![0, 1],
        output: vec![0],
    });
    assert!(!nested.covers(&[UINT], &[UINT]));
    assert!(Mapper::new().covers(&[], &[]));
}

#[test]
fn a_mapping_that_does_not_resolve_leaves_the_identity_alone() {
    let mut mapper = both_fields();
    mapper.add(Mapping { input: vec![], output: vec![2] });
    assert!(mapper.identity());
    mapper.add(Mapping { input: vec![2], output: vec![2] });
    assert!(mapper.identity());
    mapper.add(Mapping { input: vec![4], output: vec![4] });
    assert!(!mapper.identity());
}

#[test]
fn fields_out_of_order_are_no_identity() {
    let mut mapper = Mapper::new();
    mapper.add(Mapping { input: vec![1], output: vec![1] });
    mapper.add(Mapping { input: vec![0], output: vec![0] });
    assert!(!mapper.identity());
}
