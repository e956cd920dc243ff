use som_objects::objects::{
    BITSIZE, Class, Int, ObjType, String_, TAG_BITSIZE, VM, VMError, Val, ValKind,
};

#[test]
fn test_isize() {
    let mut vm = VM::new_no_bootstrap();

    let v = Int::from_isize(&mut vm, 0).unwrap();
    assert_eq!(v.valkind(), ValKind::INT);
    assert_eq!(v.as_usize(&vm).unwrap(), 0);
    assert_eq!(v.as_isize(&vm).unwrap(), 0);

    let v = Int::from_isize(&mut vm, -1).unwrap();
    assert_eq!(v.valkind(), ValKind::INT);
    assert!(v.as_usize(&vm).is_err());
    assert_eq!(v.as_isize(&vm).unwrap(), -1);

    let v = Int::from_isize(&mut vm, isize::MIN).unwrap();
    assert_eq!(v.valkind(), ValKind::GCBOX);
    assert_eq!(v.as_isize(&vm).unwrap(), isize::MIN);
    let v = Int::from_isize(&mut vm, isize::MAX).unwrap();
    assert_eq!(v.valkind(), ValKind::GCBOX);
    assert_eq!(v.as_isize(&vm).unwrap(), isize::MAX);

    let v = Int::from_isize(&mut vm, 1 << (BITSIZE - 1 - TAG_BITSIZE) - 1).unwrap();
    assert_eq!(v.valkind(), ValKind::INT);
    assert_eq!(
        v.as_usize(&vm).unwrap(),
        1 << (BITSIZE - 1 - TAG_BITSIZE) - 1
    );
    assert_eq!(
        v.as_isize(&vm).unwrap(),
        1 << (BITSIZE - 1 - TAG_BITSIZE) - 1
    );

    let v = Int::from_isize(&mut vm, 1 << (BITSIZE - 2)).unwrap();
    assert_eq!(v.valkind(), ValKind::GCBOX);
    assert_eq!(v.as_usize(&vm).unwrap(), 1 << (BITSIZE - 2));
    assert_eq!(v.as_isize(&vm).unwrap(), 1 << (BITSIZE - 2));
}

#[test]
fn test_usize() {
    let mut vm = VM::new_no_bootstrap();

    let v = Int::from_usize(&mut vm, 0).unwrap();
    assert_eq!(v.valkind(), ValKind::INT);
    assert_eq!(v.as_usize(&vm).unwrap(), 0);
    assert_eq!(v.as_isize(&vm).unwrap(), 0);

    let v = Int::from_usize(&mut vm, 1 << (BITSIZE - 1 - TAG_BITSIZE) - 1).unwrap();
    assert_eq!(v.valkind(), ValKind::INT);
    assert_eq!(
        v.as_usize(&vm).unwrap(),
        1 << (BITSIZE - 1 - TAG_BITSIZE) - 1
    );
    assert_eq!(
        v.as_isize(&vm).unwrap(),
        1 << (BITSIZE - 1 - TAG_BITSIZE) - 1
    );

    assert!(Int::from_usize(&mut vm, 1 << (BITSIZE - 1)).is_err());

    let v = Int::from_usize(&mut vm, 1 << (BITSIZE - 2)).unwrap();
    assert_eq!(v.valkind(), ValKind::GCBOX);
    assert_eq!(v.as_usize(&vm).unwrap(), 1 << (BITSIZE - 2));
    assert_eq!(v.as_isize(&vm).unwrap(), 1 << (BITSIZE - 2));
}

#[test]
fn test_boxed_int() {
    let mut vm = VM::new_no_bootstrap();

    assert_eq!(
        Int::from_isize(&mut vm, 12345).unwrap().valkind(),
        ValKind::INT
    );
    assert_eq!(
        Int::boxed_isize(&mut vm, 12345).unwrap().valkind(),
        ValKind::GCBOX
    );

    let v = Int::from_isize(&mut vm, 12345).unwrap();
    let boxed = v.gc_obj(&mut vm).unwrap();
    assert_eq!(
        boxed.cell(&vm).deref().as_usize().unwrap(),
        v.as_usize(&vm).unwrap()
    );
}

#[test]
fn test_recovery() {
    let mut vm = VM::new_no_bootstrap();

    let v = {
        let v = String_::new(&mut vm, "s".to_owned());
        let v_gcobj = v.gc_obj(&mut vm).unwrap();
        let v_recovered = Val::recover(v_gcobj.cell(&vm));
        assert_eq!(v_recovered.val, v.val);
        v_recovered
    };
    // The handle built inside the block has gone out of scope; the recovered
    // handle must still reach the same live cell.
    let g = v.gc_obj(&mut vm).unwrap();
    assert_eq!(g.cell(&vm).cast::<String_>().unwrap().s, "s");
}

#[test]
fn test_cast() {
    let mut vm = VM::new_no_bootstrap();
    let v = String_::new(&mut vm, "s".to_owned());
    let g = v.gc_obj(&mut vm).unwrap();
    assert!(g.cell(&vm).cast::<String_>().is_ok());
    let g = v.gc_obj(&mut vm).unwrap();
    assert_eq!(
        g.cell(&vm).cast::<Class>().unwrap_err(),
        VMError::TypeError {
            expected: ObjType::Class,
            got: ObjType::String_
        }
    );
}
