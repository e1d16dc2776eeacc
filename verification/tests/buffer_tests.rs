use std::cell::RefCell;
use std::rc::Rc;
use std::sync::{Arc, RwLock};

use ozz_skeleton::base::{DeterministicState, OzzIndex, OzzObj};
use ozz_skeleton::buf::{OzzBuf, OzzMutBuf, OzzMutView, OzzView};
use ozz_skeleton::joint_map::JointHashMap;
use ozz_skeleton::OzzError;

#[test]
fn error_predicates_match_variants() {
    let errors = [
        OzzError::LockPoison,
        OzzError::InvalidJob,
        OzzError::InvalidIndex,
        OzzError::IO("end".to_string()),
        OzzError::Utf8("bad".to_string()),
        OzzError::InvalidTag,
        OzzError::InvalidVersion,
        OzzError::Custom("mine".to_string()),
    ];
    let predicates: [fn(&OzzError) -> bool; 8] = [
        OzzError::is_lock_poison,
        OzzError::is_invalid_job,
        |e| matches!(e, OzzError::InvalidIndex),
        OzzError::is_io,
        OzzError::is_utf8,
        OzzError::is_invalid_tag,
        OzzError::is_invalid_version,
        OzzError::is_custom,
    ];
    for (i, e) in errors.iter().enumerate() {
        for (j, p) in predicates.iter().enumerate() {
            assert_eq!(p(e), i == j, "variant {} predicate {}", i, j);
        }
    }
}

#[test]
fn index_conversions() {
    assert_eq!(7usize.usize(), 7);
    assert_eq!(7usize.i32(), 7);
    assert_eq!(7i32.usize(), 7);
    assert_eq!((-3i32).i32(), -3);
    assert_eq!(9i16.usize(), 9);
    assert_eq!((-1i16).i32(), -1);
}

#[test]
fn obj_returns_the_referenced_value() {
    let v: u32 = 42;
    assert_eq!(*v.obj(), 42);
    let r = &v;
    assert_eq!(*OzzObj::<u32>::obj(&r), 42);
    let rc = Rc::new(5u64);
    assert_eq!(*<Rc<u64> as OzzObj<u64>>::obj(&rc), 5);
    let arc = Arc::new(6u64);
    assert_eq!(*<Arc<u64> as OzzObj<u64>>::obj(&arc), 6);
}

#[test]
fn slice_read_view() {
    let data = [1u8, 2, 3];
    let s: &[u8] = &data;
    let view = s.buf().unwrap();
    assert_eq!(view.view_len(), 3);
    assert_eq!(*view.view_at(1), 2);
    assert_eq!(view.as_slice(), &[1, 2, 3]);
}

#[test]
fn mut_slice_views() {
    let mut data = [1u8, 2, 3];
    {
        let s: &mut [u8] = &mut data;
        let view = s.buf().unwrap();
        assert_eq!(view.as_slice(), &[1, 2, 3]);
    }
    {
        let s: &mut [u8] = &mut data;
        let mut view = s.mut_buf().unwrap();
        view.view_set(0, 9);
        assert_eq!(view.view_len(), 3);
        assert_eq!(*view.view_at(0), 9);
    }
    assert_eq!(data, [9, 2, 3]);
}

#[test]
fn vec_views() {
    let mut v = vec![4u16, 5];
    {
        let view = (&v).buf().unwrap();
        assert_eq!(view.as_slice(), &[4, 5]);
    }
    {
        let vm = &mut v;
        let mut view = vm.mut_buf().unwrap();
        view.view_set(1, 7);
    }
    assert_eq!(v, vec![4, 7]);
}

#[test]
fn shared_cell_views() {
    let buf = Rc::new(RefCell::new(vec![10i32, 20, 30]));
    {
        let view = (&buf).buf().unwrap();
        assert_eq!(view.view_len(), 3);
        assert_eq!(*view.view_at(2), 30);
        // Several read views may coexist.
        let view2 = (&buf).buf().unwrap();
        assert_eq!(*view2.view_at(0), 10);
    }
    {
        let mut view = (&buf).mut_buf().unwrap();
        view.view_set(1, 99);
        assert_eq!(*view.view_at(1), 99);
    }
    assert_eq!(*buf.borrow(), vec![10, 99, 30]);
}

#[test]
fn shared_lock_views() {
    let buf = Arc::new(RwLock::new(vec![1u64, 2]));
    {
        let view = (&buf).buf().unwrap();
        assert_eq!(view.view_len(), 2);
        assert_eq!(view.as_slice(), &[1, 2]);
        // Concurrent readers do not exclude one another.
        let view2 = (&buf).buf().unwrap();
        assert_eq!(*view2.view_at(1), 2);
    }
    {
        let mut view = (&buf).mut_buf().unwrap();
        view.view_set(0, 8);
    }
    assert_eq!(*buf.read().unwrap(), vec![8, 2]);
}

#[test]
fn joint_map_bidirectional_and_overwriting() {
    let mut m = JointHashMap::with_capacity(4);
    assert_eq!(m.len(), 0);
    m.insert("a".to_string(), 0);
    m.insert("b".to_string(), 1);
    assert_eq!(m.len(), 2);
    assert_eq!(m.get_by_left("a"), Some(0));
    assert_eq!(m.get_by_right(1).map(|s| s.as_str()), Some("b"));
    assert_eq!(m.get_by_left("c"), None);
    assert_eq!(m.get_by_right(2), None);

    // Re-using a name overwrites its pair; re-using an index overwrites
    // its pair.
    m.insert("a".to_string(), 2);
    assert_eq!(m.get_by_left("a"), Some(2));
    assert_eq!(m.get_by_right(0), None);
    m.insert("c".to_string(), 1);
    assert_eq!(m.get_by_right(1).map(|s| s.as_str()), Some("c"));
    assert_eq!(m.get_by_left("b"), None);
    assert_eq!(m.len(), 2);
}

#[test]
fn deterministic_state_constructs() {
    let a = DeterministicState::new();
    let b = DeterministicState;
    assert_eq!(a, b);
}
