//! Runtime methods.
//!
//! A [`Method`] belongs to exactly one [`crate::objects::Class`], which owns
//! it through its method table. Classes and methods are mutually referential:
//! a method is built before its class exists, so its back-reference starts as
//! the VM's `nil` placeholder and is assigned exactly once by the bootstrap
//! pass, through [`Method::set_class`]. The back-reference is non-owning and
//! serves lookup only.

use crate::instrs::Primitive;
use crate::objects::{Obj, ObjType, StaticObjType, VM, Val};
use vstd::prelude::*;

verus! {

/// A runtime method: a named body, owned by the class the back-reference
/// names.
#[derive(Debug)]
pub struct Method {
    pub name: String,
    pub body: MethodBody,
    /// Back-reference to the owning class. Starts out as the VM's `nil`
    /// placeholder and is assigned once, during bootstrap; it is never counted
    /// as an ownership claim.
    pub class: Val,
}

/// The body of a runtime method.
#[derive(Debug, Clone, Copy, PartialEq, Eq)]
pub enum MethodBody {
    /// A built-in primitive.
    Primitive(Primitive),
    /// User bytecode.
    User {
        /// How many variables does this method define?
        num_vars: usize,
        /// The offset of this method's bytecode in its parent class.
        bytecode_off: usize,
        /// The maximum operand-stack depth the method needs.
        max_stack: usize,
    },
}

/// Does some method in `ms` carry the name `name`?
pub open spec fn has_name(ms: Seq<Method>, name: Seq<char>) -> bool {
    exists|i: int| 0 <= i < ms.len() && ms[i].name@ == name
}

/// Method names in `ms` are pairwise distinct.
pub open spec fn names_unique(ms: Seq<Method>) -> bool {
    forall|i: int, j: int| 0 <= i < j < ms.len() ==> ms[i].name@ != ms[j].name@
}

/// The method in `ms` carrying `name`; meaningful when `has_name(ms, name)`
/// and `names_unique(ms)` hold.
pub open spec fn method_named(ms: Seq<Method>, name: Seq<char>) -> Method {
    ms[choose|i: int| 0 <= i < ms.len() && ms[i].name@ == name]
}

/// A method table, abstracted as the mapping from method name to method.
pub open spec fn methods_map(ms: Seq<Method>) -> Map<Seq<char>, Method> {
    Map::new(|n: Seq<char>| has_name(ms, n), |n: Seq<char>| method_named(ms, n))
}

/// In a table with pairwise-distinct names, the method under the name of the
/// entry at `i` is that entry.
pub proof fn lemma_method_named_matches(ms: Seq<Method>, n: Seq<char>, i: int)
    requires
        names_unique(ms),
        0 <= i < ms.len(),
        ms[i].name@ == n,
    ensures
        has_name(ms, n),
        method_named(ms, n) == ms[i],
{
    assert(has_name(ms, n));
    let k = choose|k: int| 0 <= k < ms.len() && ms[k].name@ == n;
    assert(ms[k].name@ == n);
    assert(k == i);
}

/// Replacing the entry at `i` by a method of the same name keeps names
/// distinct and updates the name-keyed mapping at that one name.
pub proof fn lemma_methods_map_update(ms: Seq<Method>, i: int, m: Method)
    requires
        names_unique(ms),
        0 <= i < ms.len(),
        ms[i].name@ == m.name@,
    ensures
        names_unique(ms.update(i, m)),
        methods_map(ms.update(i, m)) == methods_map(ms).insert(m.name@, m),
{
    let ms2 = ms.update(i, m);
    assert forall|p: int, q: int| 0 <= p < q < ms2.len() implies ms2[p].name@ != ms2[q].name@ by {
        assert(ms[p].name@ != ms[q].name@);
    }
    assert forall|n: Seq<char>| #[trigger] has_name(ms2, n) implies n == m.name@ || has_name(
        ms,
        n,
    ) by {
        let j = choose|j: int| 0 <= j < ms2.len() && ms2[j].name@ == n;
        if j != i {
            assert(ms[j].name@ == n);
        }
    }
    assert forall|n: Seq<char>| #[trigger] has_name(ms, n) implies has_name(ms2, n) by {
        let j = choose|j: int| 0 <= j < ms.len() && ms[j].name@ == n;
        if j == i {
            assert(ms2[i].name@ == n);
        } else {
            assert(ms2[j].name@ == n);
        }
    }
    assert(ms2[i].name@ == m.name@);
    assert(has_name(ms2, m.name@));
    assert forall|n: Seq<char>| #[trigger] has_name(ms2, n) implies methods_map(ms2)[n]
        == methods_map(ms).insert(m.name@, m)[n] by {
        let j = choose|j: int| 0 <= j < ms2.len() && ms2[j].name@ == n;
        lemma_method_named_matches(ms2, n, j);
        if n == m.name@ {
            assert(j == i);
        } else {
            assert(j != i);
            assert(ms[j].name@ == n);
            lemma_method_named_matches(ms, n, j);
        }
    }
    assert(methods_map(ms2) =~= methods_map(ms).insert(m.name@, m));
}

/// Appending a method under a fresh name keeps names distinct and extends
/// the name-keyed mapping at that one name.
pub proof fn lemma_methods_map_push(ms: Seq<Method>, m: Method)
    requires
        names_unique(ms),
        !has_name(ms, m.name@),
    ensures
        names_unique(ms.push(m)),
        methods_map(ms.push(m)) == methods_map(ms).insert(m.name@, m),
{
    let ms2 = ms.push(m);
    assert forall|p: int, q: int| 0 <= p < q < ms2.len() implies ms2[p].name@ != ms2[q].name@ by {
        if q == ms.len() {
            assert(ms2[p] == ms[p]);
            if ms[p].name@ == m.name@ {
                assert(has_name(ms, m.name@));
            }
        } else {
            assert(ms[p].name@ != ms[q].name@);
        }
    }
    assert forall|n: Seq<char>| #[trigger] has_name(ms2, n) implies n == m.name@ || has_name(
        ms,
        n,
    ) by {
        let j = choose|j: int| 0 <= j < ms2.len() && ms2[j].name@ == n;
        if j != ms.len() {
            assert(ms[j].name@ == n);
        }
    }
    assert forall|n: Seq<char>| #[trigger] has_name(ms, n) implies has_name(ms2, n) by {
        let j = choose|j: int| 0 <= j < ms.len() && ms[j].name@ == n;
        assert(ms2[j].name@ == n);
    }
    assert(ms2[ms.len() as int] == m);
    assert(has_name(ms2, m.name@));
    assert forall|n: Seq<char>| #[trigger] has_name(ms2, n) implies methods_map(ms2)[n]
        == methods_map(ms).insert(m.name@, m)[n] by {
        let j = choose|j: int| 0 <= j < ms2.len() && ms2[j].name@ == n;
        lemma_method_named_matches(ms2, n, j);
        if n == m.name@ {
            assert(j == ms.len());
        } else {
            assert(j != ms.len());
            assert(ms[j].name@ == n);
            lemma_method_named_matches(ms, n, j);
        }
    }
    assert(methods_map(ms2) =~= methods_map(ms).insert(m.name@, m));
}

impl Method {
    /// Builds a method whose class back-reference is still the `nil`
    /// placeholder.
    pub fn new(vm: &VM, name: String, body: MethodBody) -> (m: Method)
        ensures
            m == (Method { name, body, class: vm.nil }),
    {
        Method { name, body, class: vm.nil }
    }

    /// The owning class, as assigned by bootstrap; the `nil` placeholder
    /// before that.
    pub fn class(&self) -> (c: Val)
        ensures
            c == self.class,
    {
        self.class
    }

    /// Assigns the owning class; the bootstrap pass calls this exactly once
    /// per method, after the class exists.
    pub fn set_class(&mut self, _vm: &VM, class: Val)
        ensures
            *final(self) == (Method { name: old(self).name, body: old(self).body, class }),
    {
        self.class = class;
    }
}

impl StaticObjType for Method {
    open spec fn static_objtype_spec() -> ObjType {
        ObjType::Method
    }

    open spec fn wraps(obj: Obj, v: Method) -> bool {
        obj == Obj::Method(v)
    }

    fn static_objtype() -> ObjType {
        ObjType::Method
    }

    fn extract(obj: &Obj) -> (r: Option<&Method>) {
        match obj {
            Obj::Method(m) => Some(m),
            _ => None,
        }
    }
}

} // verus!
