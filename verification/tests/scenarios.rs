use som_objects::cobjects;
use som_objects::instrs::Primitive;
use som_objects::method::{Method, MethodBody};
use som_objects::objects::{BITSIZE, Class, Inst, Int, ObjType, String_, VM, VMError, ValKind};

fn unit_with(methods: Vec<cobjects::Method>, consts: Vec<cobjects::Const>) -> cobjects::Class {
    cobjects::Class {
        path: "test.som".to_owned(),
        methods,
        instrs: Vec::new(),
        consts,
        sends: Vec::new(),
    }
}

#[test]
fn encode_zero_is_immediate() {
    let mut vm = VM::new_no_bootstrap();
    let v = Int::from_isize(&mut vm, 0).unwrap();
    assert_eq!(v.valkind(), ValKind::INT);
    assert_eq!(v.as_isize(&vm).unwrap(), 0);
    assert_eq!(v.as_usize(&vm).unwrap(), 0);
}

#[test]
fn encode_minus_one_has_no_usize_form() {
    let mut vm = VM::new_no_bootstrap();
    let v = Int::from_isize(&mut vm, -1).unwrap();
    assert_eq!(v.valkind(), ValKind::INT);
    assert_eq!(v.as_isize(&vm).unwrap(), -1);
    assert_eq!(v.as_usize(&vm).unwrap_err(), VMError::CantRepresentAsUsize);
}

#[test]
fn encode_min_word_is_boxed() {
    let mut vm = VM::new_no_bootstrap();
    let v = Int::from_isize(&mut vm, isize::MIN).unwrap();
    assert_eq!(v.valkind(), ValKind::GCBOX);
    assert_eq!(v.as_isize(&vm).unwrap(), isize::MIN);
}

#[test]
fn boxed_round_trip_small_value() {
    let mut vm = VM::new_no_bootstrap();
    // 7 fits the immediate form; boxing bypasses the fit check all the same.
    let v = Int::boxed_isize(&mut vm, 7).unwrap();
    assert_eq!(v.valkind(), ValKind::GCBOX);
    assert_eq!(v.as_isize(&vm).unwrap(), 7);
}

#[test]
fn boxed_usize_form_only_for_non_negatives() {
    let mut vm = VM::new_no_bootstrap();
    // A boxed integer converts to usize exactly when it is non-negative:
    // boxing zero does not lose its unsigned form.
    let v = Int::boxed_isize(&mut vm, 0).unwrap();
    assert_eq!(v.as_usize(&vm).unwrap(), 0);
    let v = Int::boxed_isize(&mut vm, -3).unwrap();
    assert_eq!(v.as_usize(&vm).unwrap_err(), VMError::CantRepresentAsUsize);
}

#[test]
fn non_integer_kinds_cannot_represent() {
    let mut vm = VM::new_no_bootstrap();
    let v = String_::new(&mut vm, "s".to_owned());
    let g = v.gc_obj(&mut vm).unwrap();
    assert_eq!(
        g.cell(&vm).deref().as_isize().unwrap_err(),
        VMError::CantRepresentAsIsize
    );
    assert_eq!(
        g.cell(&vm).deref().as_usize().unwrap_err(),
        VMError::CantRepresentAsUsize
    );
}

#[test]
fn from_usize_outer_band_is_boxed() {
    let mut vm = VM::new_no_bootstrap();
    // Above the band the arithmetic shift inverts, an unsigned value is
    // boxed rather than wrapped, so an Ok handle always reads back as-is.
    let i: usize = 1 << (BITSIZE - 4);
    let v = Int::from_usize(&mut vm, i).unwrap();
    assert_eq!(v.valkind(), ValKind::GCBOX);
    assert_eq!(v.as_usize(&vm).unwrap(), i);
    assert_eq!(v.as_isize(&vm).unwrap(), i as isize);
    // One below the band boundary stays immediate and reads back too.
    let j: usize = (1 << (BITSIZE - 4)) - 1;
    let v = Int::from_usize(&mut vm, j).unwrap();
    assert_eq!(v.valkind(), ValKind::INT);
    assert_eq!(v.as_usize(&vm).unwrap(), j);
    assert_eq!(v.as_isize(&vm).unwrap(), j as isize);
}

#[test]
fn from_usize_top_bit_cannot_represent() {
    let mut vm = VM::new_no_bootstrap();
    assert_eq!(
        Int::from_usize(&mut vm, usize::MAX).unwrap_err(),
        VMError::CantRepresentAsIsize
    );
}

#[test]
fn method_table_lookup() {
    let mut vm = VM::new_no_bootstrap();
    let methods = vec![
        cobjects::Method {
            name: "foo".to_owned(),
            body: cobjects::MethodBody::Primitive(Primitive { tag: 4 }),
        },
        cobjects::Method {
            name: "bar".to_owned(),
            body: cobjects::MethodBody::User {
                num_vars: 2,
                bytecode_off: 10,
                max_stack: 3,
            },
        },
    ];
    let cv = Class::from_ccls(&mut vm, unit_with(methods, Vec::new()));
    let g = cv.gc_obj(&mut vm).unwrap();
    let cls = g.cell(&vm).cast::<Class>().unwrap();

    let foo = cls.get_method(&vm, "foo").unwrap();
    assert_eq!(foo.name, "foo");
    assert_eq!(foo.body, MethodBody::Primitive(Primitive { tag: 4 }));

    let bar = cls.get_method(&vm, "bar").unwrap();
    assert_eq!(
        bar.body,
        MethodBody::User {
            num_vars: 2,
            bytecode_off: 10,
            max_stack: 3
        }
    );

    assert_eq!(
        cls.get_method(&vm, "baz").unwrap_err(),
        VMError::UnknownMethod("baz".to_owned())
    );
}

#[test]
fn method_table_last_write_wins() {
    let mut vm = VM::new_no_bootstrap();
    let methods = vec![
        cobjects::Method {
            name: "foo".to_owned(),
            body: cobjects::MethodBody::Primitive(Primitive { tag: 1 }),
        },
        cobjects::Method {
            name: "foo".to_owned(),
            body: cobjects::MethodBody::Primitive(Primitive { tag: 2 }),
        },
    ];
    let cv = Class::from_ccls(&mut vm, unit_with(methods, Vec::new()));
    let g = cv.gc_obj(&mut vm).unwrap();
    let cls = g.cell(&vm).cast::<Class>().unwrap();
    let foo = cls.get_method(&vm, "foo").unwrap();
    assert_eq!(foo.body, MethodBody::Primitive(Primitive { tag: 2 }));
}

#[test]
fn class_unit_with_primitive_and_constant() {
    let mut vm = VM::new_no_bootstrap();
    let methods = vec![cobjects::Method {
        name: "add".to_owned(),
        body: cobjects::MethodBody::Primitive(Primitive { tag: 0 }),
    }];
    let consts = vec![cobjects::Const::String("hello".to_owned())];
    let cv = Class::from_ccls(&mut vm, unit_with(methods, consts));
    let g = cv.gc_obj(&mut vm).unwrap();

    let const0 = {
        let cls = g.cell(&vm).cast::<Class>().unwrap();
        let add = cls.get_method(&vm, "add").unwrap();
        assert_eq!(add.body, MethodBody::Primitive(Primitive { tag: 0 }));
        assert_eq!(cls.consts.len(), 1);
        cls.consts[0]
    };
    let cg = const0.gc_obj(&mut vm).unwrap();
    assert_eq!(cg.cell(&vm).cast::<String_>().unwrap().as_str(), "hello");
}

#[test]
fn string_cast_both_ways() {
    let mut vm = VM::new_no_bootstrap();
    let v = String_::new(&mut vm, "s".to_owned());
    let g = v.gc_obj(&mut vm).unwrap();
    assert_eq!(g.cell(&vm).deref().dyn_objtype(), ObjType::String_);
    assert_eq!(g.cell(&vm).cast::<String_>().unwrap().as_str(), "s");
    assert_eq!(
        g.cell(&vm).cast::<Class>().unwrap_err(),
        VMError::TypeError {
            expected: ObjType::Class,
            got: ObjType::String_
        }
    );
}

#[test]
fn instance_reports_its_class() {
    let mut vm = VM::new_no_bootstrap();
    let cv = Class::from_ccls(&mut vm, unit_with(Vec::new(), Vec::new()));
    let iv = Inst::new(&mut vm, cv);
    let g = iv.gc_obj(&mut vm).unwrap();
    let inst_class = g.cell(&vm).deref().get_class(&vm);
    assert_eq!(inst_class.val, cv.val);
}

#[test]
fn method_backref_assigned_once() {
    let mut vm = VM::new_no_bootstrap();
    let mut m = Method::new(
        &vm,
        "run".to_owned(),
        MethodBody::User {
            num_vars: 0,
            bytecode_off: 0,
            max_stack: 1,
        },
    );
    // Before bootstrap wires it up, the back-reference is the placeholder.
    assert_eq!(m.class().val, vm.nil.val);
    let cv = Class::from_ccls(&mut vm, unit_with(Vec::new(), Vec::new()));
    m.set_class(&vm, cv);
    assert_eq!(m.class().val, cv.val);
}

#[test]
fn illegal_is_the_zero_word() {
    assert_eq!(som_objects::objects::Val::illegal().val, 0);
}

#[test]
fn immediate_band_boundary() {
    let mut vm = VM::new_no_bootstrap();
    // The fit check accepts any integer whose top three bits are uniform,
    // which is one bit more than the payload keeps: on that outer band the
    // word still encodes immediately, and the arithmetic shift reads the
    // payload back sign-extended, so the decoded value wraps.
    let i: isize = 1 << (BITSIZE - 4);
    let v = Int::from_isize(&mut vm, i).unwrap();
    assert_eq!(v.valkind(), ValKind::INT);
    assert_eq!(v.as_isize(&vm).unwrap(), -i);
    assert!(v.as_usize(&vm).is_err());
    // One bit below the band the encoding inverts exactly.
    let j: isize = (1 << (BITSIZE - 4)) - 1;
    let v = Int::from_isize(&mut vm, j).unwrap();
    assert_eq!(v.as_isize(&vm).unwrap(), j);
    assert_eq!(v.as_usize(&vm).unwrap(), j as usize);
}
