use transrustica::assemble::{artifact_file_name, conclude_assembly, plan_assembly, AssemblyError};
use transrustica::checkpoint::Checkpoint;

fn checkpoint_of(done: &[usize]) -> Checkpoint {
    let mut cp = Checkpoint::new();
    for d in done {
        cp.mark_done(*d);
    }
    cp
}

#[test]
fn assembly_fails_closed_on_missing_scene() {
    let mut cp = checkpoint_of(&[0, 1, 3]);
    let r = plan_assembly(4, &cp);
    assert_eq!(r.err(), Some(AssemblyError::Incomplete { missing: 2 }));
    assert_eq!(cp.completed_indices(), &vec![0, 1, 3]);
    let full = plan_assembly(2, &cp).ok().unwrap();
    let removed = conclude_assembly(&mut cp, full, false);
    assert!(removed.is_empty());
    assert_eq!(cp.completed_indices(), &vec![0, 1, 3]);
}

#[test]
fn assembly_lists_scenes_in_index_order() {
    let mut cp = checkpoint_of(&[1, 0]);
    let plan = plan_assembly(2, &cp).ok().unwrap();
    assert_eq!(
        String::from_utf8(plan.concat_list.clone()).unwrap(),
        "file 'scene_000_encoded.mkv'\nfile 'scene_001_encoded.mkv'\n"
    );
    let removed = conclude_assembly(&mut cp, plan, true);
    assert_eq!(removed, vec![b"scene_000_encoded.mkv".to_vec(), b"scene_001_encoded.mkv".to_vec()]);
    assert!(cp.completed_indices().is_empty());
}

#[test]
fn artifact_names_are_zero_padded() {
    assert_eq!(artifact_file_name(7), b"scene_007_encoded.mkv".to_vec());
    assert_eq!(artifact_file_name(42), b"scene_042_encoded.mkv".to_vec());
    assert_eq!(artifact_file_name(1234), b"scene_1234_encoded.mkv".to_vec());
}

#[test]
fn empty_file_assembles_nothing() {
    let cp = Checkpoint::new();
    let plan = plan_assembly(0, &cp).ok().unwrap();
    assert!(plan.concat_list.is_empty());
    assert!(plan.artifacts.is_empty());
}
