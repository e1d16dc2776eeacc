use ozz_skeleton::archive::Archive;
use ozz_skeleton::joint_map::JointHashMap;
use ozz_skeleton::math::{SoaFloat4, SoaQuat, SoaTransform, SoaVec3};
use ozz_skeleton::skeleton::Skeleton;

fn put_u32(out: &mut Vec<u8>, v: u32) {
    out.extend_from_slice(&v.to_le_bytes());
}

fn put_i32(out: &mut Vec<u8>, v: i32) {
    out.extend_from_slice(&v.to_le_bytes());
}

fn put_i16(out: &mut Vec<u8>, v: i16) {
    out.extend_from_slice(&v.to_le_bytes());
}

fn put_str(out: &mut Vec<u8>, s: &str) {
    put_u32(out, s.len() as u32);
    out.extend_from_slice(s.as_bytes());
}

fn sample_transform(seed: u32) -> SoaTransform {
    let f4 = |base: u32| SoaFloat4 {
        x0: f32::to_bits(base as f32),
        x1: f32::to_bits(base as f32 + 0.25),
        x2: f32::to_bits(base as f32 + 0.5),
        x3: f32::to_bits(-(base as f32)),
    };
    SoaTransform {
        translation: SoaVec3 { x: f4(seed), y: f4(seed + 1), z: f4(seed + 2) },
        rotation: SoaQuat { x: f4(seed + 3), y: f4(seed + 4), z: f4(seed + 5), w: f4(seed + 6) },
        scale: SoaVec3 { x: f4(seed + 7), y: f4(seed + 8), z: f4(seed + 9) },
    }
}

fn put_transform(out: &mut Vec<u8>, t: &SoaTransform) {
    let put_f4 = |out: &mut Vec<u8>, f: &SoaFloat4| {
        put_u32(out, f.x0);
        put_u32(out, f.x1);
        put_u32(out, f.x2);
        put_u32(out, f.x3);
    };
    put_f4(out, &t.translation.x);
    put_f4(out, &t.translation.y);
    put_f4(out, &t.translation.z);
    put_f4(out, &t.rotation.x);
    put_f4(out, &t.rotation.y);
    put_f4(out, &t.rotation.z);
    put_f4(out, &t.rotation.w);
    put_f4(out, &t.scale.x);
    put_f4(out, &t.scale.y);
    put_f4(out, &t.scale.z);
}

/// A conforming archive: `names[i]` gets index `i`, parents in order,
/// one SoA record per started group of four joints.
fn build_archive(names: &[&str], parents: &[i16]) -> Vec<u8> {
    let mut out = Vec::new();
    put_str(&mut out, "ozz-skeleton");
    put_u32(&mut out, 2);
    put_i32(&mut out, names.len() as i32);
    if !names.is_empty() {
        put_i32(&mut out, 0);
        for name in names {
            put_str(&mut out, name);
        }
        for p in parents {
            put_i16(&mut out, *p);
        }
        let soa = (names.len() + 3) / 4;
        for k in 0..soa {
            put_transform(&mut out, &sample_transform(k as u32));
        }
    }
    out
}

fn chain_names(n: usize) -> Vec<String> {
    let mut names = Vec::new();
    names.push("Hips".to_string());
    for i in 1..n {
        names.push(format!("j{}", i));
    }
    names
}

fn decode(bytes: Vec<u8>) -> Result<Skeleton, ozz_skeleton::OzzError> {
    let mut archive = Archive::from_bytes(bytes)?;
    Skeleton::from_archive(&mut archive)
}

fn decode_err(bytes: Vec<u8>) -> ozz_skeleton::OzzError {
    match decode(bytes) {
        Ok(_) => panic!("expected a decode failure"),
        Err(e) => e,
    }
}

#[test]
fn sixty_seven_joint_chain() {
    let names = chain_names(67);
    let name_refs: Vec<&str> = names.iter().map(|s| s.as_str()).collect();
    let mut parents = vec![-1i16];
    for i in 1..67i16 {
        parents.push(i - 1);
    }
    let sk = decode(build_archive(&name_refs, &parents)).unwrap();

    assert_eq!(sk.num_joints(), 67);
    assert_eq!(sk.num_soa_joints(), 17);
    assert_eq!(sk.num_aligned_joints(), 68);
    assert_eq!(sk.joint_rest_poses().len(), 17);
    assert_eq!(sk.joint_parents().len(), 67);
    assert_eq!(sk.joint_parents()[0], -1);
    assert_eq!(sk.joint_parents()[66], 65);
    assert_eq!(sk.joint_parent(66usize), 65);
    assert_eq!(sk.joint_names().len(), 67);
    assert_eq!(sk.joint_by_name("Hips"), Some(0));
    assert_eq!(sk.joint_by_name("j66"), Some(66));
    assert_eq!(sk.joint_by_name("nope"), None);
    assert_eq!(sk.name_by_joint(66), Some("j66"));
    assert_eq!(sk.name_by_joint(67), None);
    assert!(sk.is_leaf(66usize));
    assert!(!sk.is_leaf(0usize));

    assert_eq!(sk.joint_rest_poses()[0], sample_transform(0));
    assert_eq!(sk.joint_rest_poses()[16], sample_transform(16));
}

#[test]
fn round_trip_reproduces_all_fields() {
    let names = ["root", "spine", "arm", "hand", "head"];
    let parents = [-1i16, 0, 1, 2, 1];
    let sk = decode(build_archive(&names, &parents)).unwrap();

    let bytes = sk.to_archive();
    let sk2 = decode(bytes).unwrap();

    assert_eq!(sk.joint_parents(), sk2.joint_parents());
    assert_eq!(sk.joint_rest_poses(), sk2.joint_rest_poses());
    assert_eq!(sk.joint_names().len(), sk2.joint_names().len());
    for (i, name) in names.iter().enumerate() {
        assert_eq!(sk2.joint_by_name(name), Some(i as i16));
        assert_eq!(sk2.name_by_joint(i as i16), Some(*name));
    }
}

#[test]
fn round_trip_of_empty_skeleton() {
    let sk = decode(build_archive(&[], &[])).unwrap();
    assert_eq!(sk.num_joints(), 0);
    assert_eq!(sk.num_soa_joints(), 0);
    assert_eq!(sk.num_aligned_joints(), 0);
    let sk2 = decode(sk.to_archive()).unwrap();
    assert_eq!(sk2.num_joints(), 0);
    assert_eq!(sk2.joint_rest_poses().len(), 0);
}

#[test]
fn wrong_tag_fails_with_invalid_tag() {
    let mut out = Vec::new();
    put_str(&mut out, "ozz-animation");
    put_u32(&mut out, 2);
    put_i32(&mut out, 0);
    let err = decode_err(out);
    assert!(err.is_invalid_tag());
}

#[test]
fn wrong_version_fails_with_invalid_version() {
    let mut out = Vec::new();
    put_str(&mut out, "ozz-skeleton");
    put_u32(&mut out, 3);
    put_i32(&mut out, 0);
    let err = decode_err(out);
    assert!(err.is_invalid_version());
}

#[test]
fn truncated_stream_fails_with_io() {
    let names = ["a", "b"];
    let parents = [-1i16, 0];
    let full = build_archive(&names, &parents);
    for cut in [0, 3, 10, 17, 20, 24, 30, full.len() - 1] {
        let err = decode_err(full[..cut].to_vec());
        assert!(err.is_io(), "cut at {} gave {:?}", cut, err);
    }
}

#[test]
fn invalid_name_bytes_fail_with_utf8() {
    let mut out = Vec::new();
    put_str(&mut out, "ozz-skeleton");
    put_u32(&mut out, 2);
    put_i32(&mut out, 1);
    put_i32(&mut out, 0);
    put_u32(&mut out, 2);
    out.extend_from_slice(&[0xff, 0xfe]);
    put_i16(&mut out, -1);
    put_transform(&mut out, &sample_transform(0));
    let err = decode_err(out);
    assert!(err.is_utf8());
}

#[test]
fn metadata_only_read_skips_joints() {
    let names = ["a", "b", "c"];
    let parents = [-1i16, 0, 0];
    let mut archive = Archive::from_bytes(build_archive(&names, &parents)).unwrap();
    let meta = Skeleton::read_meta(&mut archive, false).unwrap();
    assert_eq!(meta.version, 2);
    assert_eq!(meta.num_joints, 3);
    assert_eq!(meta.joint_parents.len(), 0);
    assert_eq!(meta.joint_names.len(), 0);
}

#[test]
fn full_metadata_read() {
    let names = ["a", "b", "c"];
    let parents = [-1i16, 0, 1];
    let mut archive = Archive::from_bytes(build_archive(&names, &parents)).unwrap();
    let meta = Skeleton::read_meta(&mut archive, true).unwrap();
    assert_eq!(meta.num_joints, 3);
    assert_eq!(meta.joint_parents, vec![-1, 0, 1]);
    assert_eq!(meta.joint_names.get_by_left("b"), Some(1));
}

#[test]
fn fuzzed_parent_order_still_decodes() {
    // Parent indices violating the pre-order invariant decode fine; the
    // layer does not re-validate on load.
    let names = ["a", "b"];
    let parents = [5i16, 3];
    let sk = decode(build_archive(&names, &parents)).unwrap();
    assert_eq!(sk.joint_parents(), &[5, 3]);
}

#[test]
fn depth_first_from_root_visits_all_in_order() {
    let names = ["root", "a", "b", "c", "d"];
    let parents = [-1i16, 0, 1, 0, 3];
    let sk = decode(build_archive(&names, &parents)).unwrap();
    let visits = sk.iter_depth_first(-1i32);
    assert_eq!(visits, vec![(0, -1), (1, 0), (2, 1), (3, 0), (4, 3)]);
}

#[test]
fn depth_first_from_subtree_stops_at_boundary() {
    let names = ["root", "a", "b", "c", "d"];
    let parents = [-1i16, 0, 1, 0, 3];
    let sk = decode(build_archive(&names, &parents)).unwrap();
    // The subtree rooted at joint 1 is {1, 2}; joint 3's parent (0) falls
    // below the start index and ends the walk.
    let visits = sk.iter_depth_first(1i32);
    assert_eq!(visits, vec![(1, 0), (2, 1)]);
    // Starting past the end visits nothing.
    let visits = sk.iter_depth_first(9i32);
    assert_eq!(visits, Vec::<(i16, i16)>::new());
}

#[test]
fn reverse_depth_first_visits_children_first() {
    let names = ["root", "a", "b", "c"];
    let parents = [-1i16, 0, 1, 1];
    let sk = decode(build_archive(&names, &parents)).unwrap();
    let visits = sk.iter_depth_first_reverse();
    assert_eq!(visits, vec![(3, 1), (2, 1), (1, 0), (0, -1)]);
    // Every child appears before its parent.
    for (k, (_joint, parent)) in visits.iter().enumerate() {
        if *parent >= 0 {
            let parent_pos = visits.iter().position(|(j, _)| j == parent).unwrap();
            assert!(parent_pos > k);
        }
    }
}

#[test]
fn leaf_test_matches_definition() {
    let parents = [-1i16, 0, 1, 1];
    let names = ["root", "a", "b", "c"];
    let sk = decode(build_archive(&names, &parents)).unwrap();
    assert!(!sk.is_leaf(0usize)); // joint 1's parent is 0
    assert!(!sk.is_leaf(1usize)); // joint 2's parent is 1
    assert!(sk.is_leaf(2usize)); // joint 3's parent is 1, not 2
    assert!(sk.is_leaf(3usize)); // last joint
}

#[test]
fn from_raw_and_default() {
    let sk = Skeleton::default();
    assert_eq!(sk.num_joints(), 0);

    let mut names = JointHashMap::with_capacity(1);
    names.insert("only".to_string(), 0);
    let sk = Skeleton::from_raw(vec![sample_transform(7)], vec![-1], names);
    assert_eq!(sk.num_joints(), 1);
    assert_eq!(sk.joint_by_name("only"), Some(0));
    assert_eq!(sk.joint_rest_poses()[0], sample_transform(7));
}

#[test]
fn tag_and_version() {
    assert_eq!(Skeleton::tag(), "ozz-skeleton");
    assert_eq!(Skeleton::version(), 2);
}

#[test]
fn archive_primitive_reads() {
    let mut out = Vec::new();
    put_str(&mut out, "ozz-skeleton");
    put_u32(&mut out, 2);
    put_u32(&mut out, 0xdeadbeef);
    put_i32(&mut out, -7);
    put_str(&mut out, "grüß");
    put_i16(&mut out, -2);
    put_i16(&mut out, 513);
    let mut a = Archive::from_bytes(out).unwrap();
    assert_eq!(a.tag(), "ozz-skeleton");
    assert_eq!(a.version(), 2);
    assert_eq!(a.read_u32().unwrap(), 0xdeadbeef);
    assert_eq!(a.read_i32().unwrap(), -7);
    assert_eq!(a.read_string().unwrap(), "grüß");
    assert_eq!(a.read_i16_vec(2).unwrap(), vec![-2, 513]);
    assert!(a.read_u32().unwrap_err().is_io());
}

#[test]
fn negative_joint_count_fails_with_io() {
    // A negative joint count asks for more parent entries than any stream
    // can hold, so the decode fails as truncated.
    let mut out = Vec::new();
    put_str(&mut out, "ozz-skeleton");
    put_u32(&mut out, 2);
    put_i32(&mut out, -5);
    put_i32(&mut out, 0);
    let err = decode_err(out);
    assert!(err.is_io());
}

#[test]
fn duplicate_names_overwrite_earlier_joints() {
    // The decoder does not reject duplicate names; the later joint keeps
    // the name and the earlier joint ends up nameless.
    let names = ["same", "same"];
    let parents = [-1i16, 0];
    let sk = decode(build_archive(&names, &parents)).unwrap();
    assert_eq!(sk.num_joints(), 2);
    assert_eq!(sk.joint_by_name("same"), Some(1));
    assert_eq!(sk.name_by_joint(0), None);
    assert_eq!(sk.joint_names().len(), 1);
}

#[test]
fn duplicate_reproduces_all_fields() {
    let names = ["root", "a", "b"];
    let parents = [-1i16, 0, 1];
    let sk = decode(build_archive(&names, &parents)).unwrap();
    let copy = sk.duplicate();
    assert_eq!(copy.joint_parents(), sk.joint_parents());
    assert_eq!(copy.joint_rest_poses(), sk.joint_rest_poses());
    assert_eq!(copy.joint_by_name("b"), Some(2));
}
