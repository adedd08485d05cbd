//! The standard library of the language: the bindings of the global scope,
//! the modules, the fields of the primitive values and the native functions.

use crate::object::{
    fields_view, BuiltIn, FieldsManager, Module, Object, ObjectInfo, ObjectInfoView, ObjectView,
};

use crate::text::owned;
use crate::context::{first_bound, lemma_first_bound_each, lookup, ContextType, ScopeView};
use vstd::prelude::*;
use vstd::utf8::encode_utf8;

verus! {

/// The bit pattern of the double nearest to the number pi.
pub const PI_BITS: u64 = 0x4009_21fb_5444_2d18;

/// A length as an integer value: the length itself, or the largest integer
/// where it is larger.
pub open spec fn len_value(n: nat) -> i64 {
    if n <= i64::MAX {
        n as i64
    } else {
        i64::MAX
    }
}

pub(crate) fn length_to_int(n: usize) -> (r: i64)
    ensures
        r == len_value(n as nat),
{
    let wide = n as u64;
    if wide <= 0x7fff_ffff_ffff_ffff {
        wide as i64
    } else {
        i64::MAX
    }
}

/// The length of a string in bytes, as the machine counts it.
pub open spec fn byte_len(value: Seq<char>) -> nat {
    (encode_utf8(value).len() as usize) as nat
}

/// A primitive value together with the fields that it exposes.
#[derive(Debug)]
pub struct Primitive<T> {
    pub value: T,
    pub fields: FieldsManager,
}

impl<T> Primitive<T> {
    /// The value `value` with the fields `fields`.
    pub fn make(value: T, fields: Vec<(String, Object)>) -> (r: Primitive<T>)
        ensures
            r.value == value,
            r.fields.fields == fields,
    {
        Primitive { value, fields: FieldsManager::make(fields) }
    }
}

/// The field that `name` names in a list of fields: the last entry of that
/// name.
pub open spec fn field_of(fields: Seq<(Seq<char>, ObjectView)>, name: Seq<char>) -> Option<
    ObjectView,
>
    decreases fields.len(),
{
    if fields.len() == 0 {
        None
    } else if fields.last().0 == name {
        Some(fields.last().1)
    } else {
        field_of(fields.drop_last(), name)
    }
}

impl View for FieldsManager {
    type V = Seq<(Seq<char>, ObjectView)>;

    open spec fn view(&self) -> Seq<(Seq<char>, ObjectView)> {
        fields_view(self.fields@)
    }
}

impl FieldsManager {
    /// The field map of the entries `fields`.
    pub fn make(fields: Vec<(String, Object)>) -> (r: Self)
        ensures
            r.fields == fields,
    {
        Self { fields }
    }

    /// A copy of the field `name`, if there is one.
    pub fn access(&self, name: &str) -> (r: Option<Object>)
        ensures
            match field_of(self@, name@) {
                Some(o) => r is Some && r->Some_0@ == o,
                None => r is None,
            },
    {
        let key = owned(name);
        let mut i: usize = self.fields.len();
        let ghost all = self@;
        assert(all.subrange(0, i as int) =~= all);
        while i > 0
            invariant
                i <= self.fields@.len(),
                all == self@,
                key@ == name@,
                field_of(all, name@) == field_of(all.subrange(0, i as int), name@),
            decreases i,
        {
            i = i - 1;
            assert(all.subrange(0, i + 1).drop_last() =~= all.subrange(0, i as int));
            assert(all.subrange(0, i + 1).last() == all[i as int]);
            if self.fields[i].0 == key {
                return Some(self.fields[i].1.clone());
            }
        }
        None
    }
}

impl Module {
    /// The module `name` with the fields `fields`.
    pub fn make(name: String, fields: Vec<(String, Object)>) -> (r: Self)
        ensures
            r.name == name,
            r.fields.fields == fields,
    {
        Self { name, fields: FieldsManager::make(fields) }
    }
}

/// The fields of a string: its length in bytes, and the method `as_int`.
pub open spec fn string_fields(value: Seq<char>) -> Seq<(Seq<char>, ObjectView)> {
    seq![
        ("length"@, ObjectView::Int(len_value(byte_len(value)))),
        ("as_int"@, ObjectView::BuiltInFunction(BuiltIn::StringAsInt)),
    ]
}

/// The fields of an integer: the method `as_float`.
pub open spec fn integer_fields() -> Seq<(Seq<char>, ObjectView)> {
    seq![("as_float"@, ObjectView::BuiltInFunction(BuiltIn::IntAsFloat))]
}

/// The fields of an array: the method `length`.
pub open spec fn array_fields() -> Seq<(Seq<char>, ObjectView)> {
    seq![("length"@, ObjectView::BuiltInFunction(BuiltIn::ArrayLength))]
}

/// The field map of a value: strings, integers, arrays and modules have
/// one, other values have none.
pub open spec fn fields_of_view(object: ObjectView) -> Option<Seq<(Seq<char>, ObjectView)>> {
    match object {
        ObjectView::String(s) => Some(string_fields(s)),
        ObjectView::Int(_) => Some(integer_fields()),
        ObjectView::Array { .. } => Some(array_fields()),
        ObjectView::Module { name, fields } => Some(fields),
        _ => None,
    }
}

/// The string `value` with its fields.
pub fn make_string(value: String) -> (r: Primitive<String>)
    ensures
        r.value == value,
        r.fields@ == string_fields(value@),
{
    let mut fields: Vec<(String, Object)> = Vec::new();
    fields.push((owned("length"), Object::Int(length_to_int(value.as_str().len()))));
    fields.push((owned("as_int"), Object::BuiltInFunction(BuiltIn::StringAsInt)));
    assert(fields_view(fields@) =~= string_fields(value@));
    Primitive::<String>::make(value, fields)
}

/// The integer `value` with its fields.
pub fn make_integer(value: i64) -> (r: Primitive<i64>)
    ensures
        r.value == value,
        r.fields@ == integer_fields(),
{
    let mut fields: Vec<(String, Object)> = Vec::new();
    fields.push((owned("as_float"), Object::BuiltInFunction(BuiltIn::IntAsFloat)));
    assert(fields_view(fields@) =~= integer_fields());
    Primitive::<i64>::make(value, fields)
}

/// The fields of every array.
pub fn setup_fields() -> (r: FieldsManager)
    ensures
        r@ == array_fields(),
{
    let mut fields: Vec<(String, Object)> = Vec::new();
    fields.push((owned("length"), Object::BuiltInFunction(BuiltIn::ArrayLength)));
    assert(fields_view(fields@) =~= array_fields());
    FieldsManager::make(fields)
}

/// The field map of a value, if it has one.
pub fn fields_of(object: &Object) -> (r: Option<FieldsManager>)
    ensures
        match fields_of_view(object@) {
            Some(fields) => r is Some && r->Some_0@ == fields,
            None => r is None,
        },
{
    match object {
        Object::String(s) => Some(make_string(s.clone()).fields),
        Object::Int(v) => Some(make_integer(*v).fields),
        Object::Array { .. } => Some(setup_fields()),
        Object::Module(m) => Some(
            FieldsManager { fields: crate::object::clone_fields(&m.fields.fields) },
        ),
        _ => None,
    }
}

/// The module `math`: the constant `PI` and the function `sqrt`.
pub open spec fn math_view() -> ObjectView {
    ObjectView::Module {
        name: "Math"@,
        fields: seq![
            ("PI"@, ObjectView::Float(PI_BITS)),
            ("sqrt"@, ObjectView::BuiltInFunction(BuiltIn::MathSqrt)),
        ],
    }
}

/// The module `io`: the functions `puts` and `gets`.
pub open spec fn io_view() -> ObjectView {
    ObjectView::Module {
        name: "io"@,
        fields: seq![
            ("puts"@, ObjectView::BuiltInFunction(BuiltIn::IoPuts)),
            ("gets"@, ObjectView::BuiltInFunction(BuiltIn::IoGets)),
        ],
    }
}

/// The module `random`: the function `randint`.
pub open spec fn random_view() -> ObjectView {
    ObjectView::Module {
        name: "random"@,
        fields: seq![("randint"@, ObjectView::BuiltInFunction(BuiltIn::RandInt))],
    }
}

/// The module `sys`: the function `exit`.
pub open spec fn sys_view() -> ObjectView {
    ObjectView::Module {
        name: "sys"@,
        fields: seq![("exit"@, ObjectView::BuiltInFunction(BuiltIn::SysExit))],
    }
}

/// The module `math`.
pub fn module_math() -> (r: Object)
    ensures
        r@ == math_view(),
{
    let mut fields: Vec<(String, Object)> = Vec::new();
    fields.push((owned("PI"), Object::Float(PI_BITS)));
    fields.push((owned("sqrt"), Object::BuiltInFunction(BuiltIn::MathSqrt)));
    assert(fields_view(fields@) =~= math_view()->Module_fields);
    Object::Module(Module::make(owned("Math"), fields))
}

/// The module `io`.
pub fn module_io() -> (r: Object)
    ensures
        r@ == io_view(),
{
    let mut fields: Vec<(String, Object)> = Vec::new();
    fields.push((owned("puts"), Object::BuiltInFunction(BuiltIn::IoPuts)));
    fields.push((owned("gets"), Object::BuiltInFunction(BuiltIn::IoGets)));
    assert(fields_view(fields@) =~= io_view()->Module_fields);
    Object::Module(Module::make(owned("io"), fields))
}

/// The module `random`.
pub fn module_random() -> (r: Object)
    ensures
        r@ == random_view(),
{
    let mut fields: Vec<(String, Object)> = Vec::new();
    fields.push((owned("randint"), Object::BuiltInFunction(BuiltIn::RandInt)));
    assert(fields_view(fields@) =~= random_view()->Module_fields);
    Object::Module(Module::make(owned("random"), fields))
}

/// The module `sys`.
pub fn module_sys() -> (r: Object)
    ensures
        r@ == sys_view(),
{
    let mut fields: Vec<(String, Object)> = Vec::new();
    fields.push((owned("exit"), Object::BuiltInFunction(BuiltIn::SysExit)));
    assert(fields_view(fields@) =~= sys_view()->Module_fields);
    Object::Module(Module::make(owned("sys"), fields))
}

/// A constant of the global scope: `value`, bound with its own type.
pub open spec fn constant(value: ObjectView) -> ObjectInfoView {
    ObjectInfoView { is_mut: false, type_: value.type_of(), value }
}

/// The bindings of the global scope, in the order of their entry: the free
/// functions, the constants `true`, `false` and `null`, and the modules.
pub open spec fn builtins_view() -> Seq<(Seq<char>, ObjectInfoView)> {
    seq![
        ("print"@, constant(ObjectView::BuiltInFunction(BuiltIn::Print))),
        ("exit"@, constant(ObjectView::BuiltInFunction(BuiltIn::Exit))),
        ("typeof"@, constant(ObjectView::BuiltInFunction(BuiltIn::TypeOf))),
        ("range"@, constant(ObjectView::BuiltInFunction(BuiltIn::Range))),
        ("len"@, constant(ObjectView::BuiltInFunction(BuiltIn::Len))),
        ("true"@, constant(ObjectView::Boolean(true))),
        ("false"@, constant(ObjectView::Boolean(false))),
        ("null"@, constant(ObjectView::Null)),
        ("math"@, constant(math_view())),
        ("io"@, constant(io_view())),
        ("random"@, constant(random_view())),
        ("sys"@, constant(sys_view())),
    ]
}

/// Every binding of the global scope is in order.
pub proof fn lemma_builtins_in_order()
    ensures
        forall|i: int| 0 <= i < builtins_view().len() ==> (#[trigger] builtins_view()[i]).1.wf(),
{
    let all = builtins_view();
    assert(all[0].1.wf());
    assert(all[1].1.wf());
    assert(all[2].1.wf());
    assert(all[3].1.wf());
    assert(all[4].1.wf());
    assert(all[5].1.wf());
    assert(all[6].1.wf());
    assert(all[7].1.wf());
    assert(all[8].1.wf()) by {
        let fields = math_view()->Module_fields;
        assert(fields[0].1.wf());
        assert(fields[1].1.wf());
    }
    assert(all[9].1.wf()) by {
        let fields = io_view()->Module_fields;
        assert(fields[0].1.wf());
        assert(fields[1].1.wf());
    }
    assert(all[10].1.wf()) by {
        let fields = random_view()->Module_fields;
        assert(fields[0].1.wf());
    }
    assert(all[11].1.wf()) by {
        let fields = sys_view()->Module_fields;
        assert(fields[0].1.wf());
    }
}

/// No two bindings of the global scope have one name.
pub proof fn lemma_builtin_names_differ()
    ensures
        forall|a: int, b: int|
            0 <= a < b < builtins_view().len() ==> builtins_view()[a].0 != builtins_view()[b].0,
{
    reveal_strlit("print");
    reveal_strlit("exit");
    reveal_strlit("typeof");
    reveal_strlit("range");
    reveal_strlit("len");
    reveal_strlit("true");
    reveal_strlit("false");
    reveal_strlit("null");
    reveal_strlit("math");
    reveal_strlit("io");
    reveal_strlit("random");
    reveal_strlit("sys");
    let all = builtins_view();
    assert(all[0].0.len() == 5 && all[0].0[0] == 'p');
    assert(all[1].0.len() == 4 && all[1].0[0] == 'e');
    assert(all[2].0.len() == 6 && all[2].0[0] == 't');
    assert(all[3].0.len() == 5 && all[3].0[0] == 'r');
    assert(all[4].0.len() == 3 && all[4].0[0] == 'l');
    assert(all[5].0.len() == 4 && all[5].0[0] == 't');
    assert(all[6].0.len() == 5 && all[6].0[0] == 'f');
    assert(all[7].0.len() == 4 && all[7].0[0] == 'n');
    assert(all[8].0.len() == 4 && all[8].0[0] == 'm');
    assert(all[9].0.len() == 2 && all[9].0[0] == 'i');
    assert(all[10].0.len() == 6 && all[10].0[0] == 'r');
    assert(all[11].0.len() == 3 && all[11].0[0] == 's');
}

/// The global scope of the standard library: its bindings, without a
/// parent.
pub open spec fn global_scope() -> ScopeView {
    ScopeView {
        kind: ContextType::Global,
        bindings: first_bound(builtins_view()),
        parent: None,
    }
}

/// In a context whose only scope is that of the standard library, every
/// name of the library resolves to its binding.
pub proof fn lemma_builtins_resolve(i: int)
    requires
        0 <= i < builtins_view().len(),
    ensures
        lookup(seq![global_scope()], builtins_view()[i].0) == Some((0int, builtins_view()[i].1)),
{
    lemma_builtin_names_differ();
    lemma_first_bound_each(builtins_view(), i);
}

fn global(name: &str, value: Object) -> (r: (String, ObjectInfo))
    ensures
        r.0@ == name@,
        r.1@ == constant(value@),
{
    let type_ = value.ask_type();
    (owned(name), ObjectInfo { is_mut: false, type_, value })
}

/// The bindings of the global scope: every one a constant that is in order.
pub fn builtins() -> (r: Vec<(String, ObjectInfo)>)
    ensures
        r@.len() == builtins_view().len(),
        forall|i: int|
            0 <= i < r@.len() ==> (#[trigger] r@[i]).0@ == builtins_view()[i].0 && r@[i].1@
                == builtins_view()[i].1,
        forall|i: int| 0 <= i < r@.len() ==> (#[trigger] r@[i]).1@.wf(),
{
    let mut list: Vec<(String, ObjectInfo)> = Vec::new();
    list.push(global("print", Object::BuiltInFunction(BuiltIn::Print)));
    list.push(global("exit", Object::BuiltInFunction(BuiltIn::Exit)));
    list.push(global("typeof", Object::BuiltInFunction(BuiltIn::TypeOf)));
    list.push(global("range", Object::BuiltInFunction(BuiltIn::Range)));
    list.push(global("len", Object::BuiltInFunction(BuiltIn::Len)));
    list.push(global("true", Object::Boolean(true)));
    list.push(global("false", Object::Boolean(false)));
    list.push(global("null", Object::Null));
    list.push(global("math", module_math()));
    list.push(global("io", module_io()));
    list.push(global("random", module_random()));
    list.push(global("sys", module_sys()));
    proof {
        lemma_builtins_in_order();
        assert forall|i: int| 0 <= i < list@.len() implies (#[trigger] list@[i]).1@.wf() by {
            assert(list@[i].1@ == builtins_view()[i].1);
        }
    }
    list
}

} // verus!
