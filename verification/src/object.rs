//! Runtime values and what a binding stores of them.

use crate::ast::BlockStmt;
use crate::host::Host;
use crate::runtime_error::{RuntimeError, RuntimeErrorView};
use crate::text::{bool_text, bool_to_string, decimal, int_to_string, join, owned};
use crate::type_system::Type;
use std::rc::Rc;
use vstd::prelude::*;

verus! {

/// The native functions that the language offers.
#[derive(Clone, Copy, Debug, PartialEq, Eq, Structural)]
pub enum BuiltIn {
    /// `print(...)`: writes its arguments and a line end.
    Print,
    /// `exit([int])`: ends the process.
    Exit,
    /// `typeof(x)`: the type of a value.
    TypeOf,
    /// `range(start, end [, step])`: a range of integers.
    Range,
    /// `len(string)`: the length of a string.
    Len,
    /// `math.sqrt(number)`: the square root.
    MathSqrt,
    /// `io.puts(...)`: writes its arguments and a line end.
    IoPuts,
    /// `io.gets([prompt])`: reads a line.
    IoGets,
    /// `sys.exit([int])`: ends the process.
    SysExit,
    /// `random.randint(begin, end)`: a random integer of a range.
    RandInt,
    /// `string.as_int()`: the integer that a string spells.
    StringAsInt,
    /// `int.as_float()`: an integer as a float.
    IntAsFloat,
    /// `array.length()`: the number of elements.
    ArrayLength,
}

/// A parameter of a user-defined function.
#[derive(PartialEq, Debug)]
pub struct FunctionParam {
    pub name: String,
    pub type_: Type,
}

/// The parameters of a user-defined function.
pub type FunctionParams = Vec<FunctionParam>;

/// A field map: the named values that a value exposes to dotted access.
#[derive(Debug, PartialEq)]
pub struct FieldsManager {
    pub fields: Vec<(String, Object)>,
}

/// A module: a named field map.
#[derive(Debug, PartialEq)]
pub struct Module {
    pub name: String,
    pub fields: FieldsManager,
}

/// A runtime value. A float is held as the bit pattern of its IEEE 754
/// double.
#[derive(Debug, PartialEq)]
pub enum Object {
    Null,
    Type(Type),
    Int(i64),
    Float(u64),
    Boolean(bool),
    String(String),
    /// A value on its way out of a function.
    RetVal(Box<Object>),
    Array { inner: Vec<Object>, items_type: Option<Type> },
    UserDefinedFunction { params: FunctionParams, body: Rc<BlockStmt>, return_type: Type },
    BuiltInFunction(BuiltIn),
    Range { start: i64, end: i64, step: i64 },
    Module(Module),
}

/// What a binding stores: the value, the declared type, and whether the
/// binding may be assigned to.
#[derive(Debug, PartialEq)]
pub struct ObjectInfo {
    pub is_mut: bool,
    pub type_: Type,
    pub value: Object,
}

/// What a native function hands back.
#[derive(Debug, PartialEq)]
pub enum BuiltInFuncReturnValue {
    Object(Object),
    Error(RuntimeError),
}

/// The mathematical model of a [`FunctionParam`].
pub struct ParamView {
    pub name: Seq<char>,
    pub type_: Type,
}

/// The mathematical model of an [`Object`].
pub enum ObjectView {
    Null,
    Type(Type),
    Int(i64),
    Float(u64),
    Boolean(bool),
    String(Seq<char>),
    RetVal(Box<ObjectView>),
    Array { inner: Seq<ObjectView>, items_type: Option<Type> },
    UserDefinedFunction { params: Seq<ParamView>, body: BlockStmt, return_type: Type },
    BuiltInFunction(BuiltIn),
    Range { start: i64, end: i64, step: i64 },
    Module { name: Seq<char>, fields: Seq<(Seq<char>, ObjectView)> },
}

/// The mathematical model of an [`ObjectInfo`].
pub struct ObjectInfoView {
    pub is_mut: bool,
    pub type_: Type,
    pub value: ObjectView,
}

/// The mathematical model of a [`BuiltInFuncReturnValue`].
pub enum ReturnView {
    Object(ObjectView),
    Error(RuntimeErrorView),
}

impl View for FunctionParam {
    type V = ParamView;

    open spec fn view(&self) -> ParamView {
        ParamView { name: self.name@, type_: self.type_ }
    }
}

/// The models of a list of parameters.
pub open spec fn params_view(params: Seq<FunctionParam>) -> Seq<ParamView> {
    Seq::new(params.len(), |i: int| params[i]@)
}

/// The models of a list of values.
pub open spec fn objects_view(objects: Seq<Object>) -> Seq<ObjectView>
    decreases objects,
{
    Seq::new(
        objects.len(),
        |i: int|
            if 0 <= i < objects.len() {
                object_view(objects[i])
            } else {
                ObjectView::Null
            },
    )
}

/// The models of a list of named values.
pub open spec fn fields_view(fields: Seq<(String, Object)>) -> Seq<(Seq<char>, ObjectView)>
    decreases fields,
{
    Seq::new(
        fields.len(),
        |i: int|
            if 0 <= i < fields.len() {
                (fields[i].0@, object_view(fields[i].1))
            } else {
                (Seq::empty(), ObjectView::Null)
            },
    )
}

/// The model of a value.
pub open spec fn object_view(object: Object) -> ObjectView
    decreases object,
{
    match object {
        Object::Null => ObjectView::Null,
        Object::Type(t) => ObjectView::Type(t),
        Object::Int(v) => ObjectView::Int(v),
        Object::Float(bits) => ObjectView::Float(bits),
        Object::Boolean(b) => ObjectView::Boolean(b),
        Object::String(s) => ObjectView::String(s@),
        Object::RetVal(inner) => ObjectView::RetVal(Box::new(object_view(*inner))),
        Object::Array { inner, items_type } => ObjectView::Array {
            inner: objects_view(inner@),
            items_type,
        },
        Object::UserDefinedFunction { params, body, return_type } => ObjectView::UserDefinedFunction {
            params: params_view(params@),
            body: *body,
            return_type,
        },
        Object::BuiltInFunction(f) => ObjectView::BuiltInFunction(f),
        Object::Range { start, end, step } => ObjectView::Range { start, end, step },
        Object::Module(m) => ObjectView::Module {
            name: m.name@,
            fields: fields_view(m.fields.fields@),
        },
    }
}

impl View for Object {
    type V = ObjectView;

    open spec fn view(&self) -> ObjectView {
        object_view(*self)
    }
}

impl View for ObjectInfo {
    type V = ObjectInfoView;

    open spec fn view(&self) -> ObjectInfoView {
        ObjectInfoView { is_mut: self.is_mut, type_: self.type_, value: self.value@ }
    }
}

impl View for BuiltInFuncReturnValue {
    type V = ReturnView;

    open spec fn view(&self) -> ReturnView {
        match *self {
            BuiltInFuncReturnValue::Object(o) => ReturnView::Object(o@),
            BuiltInFuncReturnValue::Error(e) => ReturnView::Error(e@),
        }
    }
}

impl ObjectView {
    /// The runtime type of a value. A value on its way out of a function
    /// has the type of what it carries.
    pub open spec fn type_of(self) -> Type
        decreases self,
    {
        match self {
            ObjectView::Null => Type::Null,
            ObjectView::Type(_) => Type::TypeAnnot,
            ObjectView::Int(_) => Type::Int,
            ObjectView::Float(_) => Type::Float,
            ObjectView::Boolean(_) => Type::Boolean,
            ObjectView::String(_) => Type::String,
            ObjectView::RetVal(inner) => inner.type_of(),
            ObjectView::Array { inner, items_type } => match items_type {
                Some(t) => Type::Array(Some(Box::new(t))),
                None => Type::Array(None),
            },
            ObjectView::UserDefinedFunction { .. } => Type::Function,
            ObjectView::BuiltInFunction(_) => Type::Function,
            ObjectView::Range { .. } => Type::Range,
            ObjectView::Module { .. } => Type::Module,
        }
    }

    /// Whether the value is well formed. An array without an element type is
    /// empty; every element of an array with an element type is a well-formed
    /// value of that type and not on its way out of a function. The step of
    /// a range is not zero. The fields of a module are well formed and not
    /// on their way out of a function.
    pub open spec fn wf(self) -> bool
        decreases self,
    {
        match self {
            ObjectView::RetVal(inner) => inner.wf(),
            ObjectView::Array { inner, items_type } => match items_type {
                None => inner.len() == 0,
                Some(t) => forall|i: int|
                    0 <= i < inner.len() ==> (#[trigger] inner[i]).wf() && !(inner[i] is RetVal)
                        && inner[i].type_of() == t,
            },
            ObjectView::Range { start, end, step } => step != 0,
            ObjectView::Module { name, fields } => forall|i: int|
                0 <= i < fields.len() ==> (#[trigger] fields[i]).1.wf() && !(fields[i].1 is RetVal),
            _ => true,
        }
    }

    /// Whether no float occurs in the value.
    pub open spec fn float_free(self) -> bool
        decreases self,
    {
        match self {
            ObjectView::Float(_) => false,
            ObjectView::RetVal(inner) => inner.float_free(),
            ObjectView::Array { inner, items_type } => forall|i: int|
                0 <= i < inner.len() ==> (#[trigger] inner[i]).float_free(),
            _ => true,
        }
    }
}

/// The echo forms of a list of values, separated by a comma and a space.
pub open spec fn echo_list(items: Seq<ObjectView>) -> Seq<char>
    decreases items,
{
    if items.len() == 0 {
        Seq::empty()
    } else if items.len() == 1 {
        items[0].echo()
    } else {
        echo_list(items.drop_last()) + ", "@ + items.last().echo()
    }
}

impl ObjectView {
    /// The echo form of a value, as an interactive session shows it: a
    /// string between single quotes, an array between brackets. A float is
    /// shown as the host renders it, which is not stated here.
    pub open spec fn echo(self) -> Seq<char>
        decreases self,
    {
        match self {
            ObjectView::String(s) => "'"@ + s + "'"@,
            ObjectView::Int(v) => decimal(v as int),
            ObjectView::Float(_) => Seq::empty(),
            ObjectView::BuiltInFunction(_) => "[Builtin Function]"@,
            ObjectView::Null => "null"@,
            ObjectView::RetVal(inner) => inner.echo(),
            ObjectView::Boolean(b) => bool_text(b),
            ObjectView::Type(t) => t.text(),
            ObjectView::Range { start, end, step } => "range("@ + decimal(start as int) + ", "@
                + decimal(end as int) + ", "@ + decimal(step as int) + ")"@,
            ObjectView::UserDefinedFunction { .. } => "[User Defined Function]"@,
            ObjectView::Array { inner, items_type } => "["@ + echo_list(inner) + "]"@,
            ObjectView::Module { name, fields } => "[Module] "@ + name,
        }
    }

    /// The form of a value that `print` writes: a string as it is, anything
    /// else in its echo form.
    pub open spec fn plain(self) -> Seq<char> {
        match self {
            ObjectView::String(s) => s,
            _ => self.echo(),
        }
    }
}

/// Whether a value can be the value of an expression: it is well formed and
/// not on its way out of a function.
pub open spec fn value_ok(o: ObjectView) -> bool {
    o.wf() && !(o is RetVal)
}

/// Whether a value can be the outcome of a statement: it is well formed,
/// and where it is on its way out of a function, what it carries is not.
pub open spec fn outcome_ok(o: ObjectView) -> bool {
    o.wf() && (o matches ObjectView::RetVal(inner) ==> !(*inner is RetVal))
}

impl ObjectInfoView {
    /// Whether the binding is in order: its value is well formed and not on
    /// its way out of a function, an array in it knows its element type, and
    /// the value is null or of the declared type.
    pub open spec fn wf(self) -> bool {
        &&& self.value.wf()
        &&& !(self.value is RetVal)
        &&& self.value matches ObjectView::Array { items_type, .. } ==> items_type is Some
        &&& (self.value is Null || self.value.type_of() == self.type_)
    }
}

/// Every element of a well-formed array that knows its element type is of
/// that type.
pub proof fn law_array_elements(array: ObjectView, i: int)
    requires
        array.wf(),
        array matches ObjectView::Array { inner, items_type } && items_type is Some && 0 <= i
            < inner.len(),
    ensures
        array->Array_inner[i].type_of() == array->Array_items_type->Some_0,
        array->Array_inner[i].wf(),
{
}

/// An array that does not know its element type is empty.
pub proof fn law_untyped_array_is_empty(array: ObjectView)
    requires
        array.wf(),
        array matches ObjectView::Array { inner, items_type } && items_type is None,
    ensures
        array->Array_inner.len() == 0,
{
}

/// Another handle on a shared block of statements: `Rc::clone` makes a new
/// pointer to the same allocation, so both hold the same statements.
#[verifier::external_body]
pub(crate) fn share_block(body: &Rc<BlockStmt>) -> (r: Rc<BlockStmt>)
    ensures
        r == *body,
{
    Rc::clone(body)
}

impl Clone for FunctionParam {
    fn clone(&self) -> (r: Self)
        ensures
            r@ == self@,
    {
        FunctionParam { name: self.name.clone(), type_: self.type_.clone() }
    }
}

/// A copy of a list of parameters.
pub fn clone_params(params: &Vec<FunctionParam>) -> (r: Vec<FunctionParam>)
    ensures
        params_view(r@) == params_view(params@),
{
    let mut out: Vec<FunctionParam> = Vec::new();
    let mut i: usize = 0;
    while i < params.len()
        invariant
            i <= params.len(),
            out@.len() == i,
            forall|k: int| 0 <= k < i ==> out@[k]@ == params@[k]@,
        decreases params.len() - i,
    {
        out.push(params[i].clone());
        i = i + 1;
    }
    assert(params_view(out@) =~= params_view(params@));
    out
}

/// A copy of a list of values.
pub fn clone_objects(objects: &Vec<Object>) -> (r: Vec<Object>)
    ensures
        objects_view(r@) == objects_view(objects@),
    decreases objects,
{
    let mut out: Vec<Object> = Vec::new();
    let mut i: usize = 0;
    while i < objects.len()
        invariant
            i <= objects.len(),
            out@.len() == i,
            forall|k: int| 0 <= k < i ==> object_view(out@[k]) == object_view(objects@[k]),
        decreases objects.len() - i,
    {
        out.push(objects[i].clone());
        i = i + 1;
    }
    assert(objects_view(out@) =~= objects_view(objects@));
    out
}

/// A copy of a list of named values.
pub fn clone_fields(fields: &Vec<(String, Object)>) -> (r: Vec<(String, Object)>)
    ensures
        fields_view(r@) == fields_view(fields@),
    decreases fields,
{
    let mut out: Vec<(String, Object)> = Vec::new();
    let mut i: usize = 0;
    while i < fields.len()
        invariant
            i <= fields.len(),
            out@.len() == i,
            forall|k: int|
                0 <= k < i ==> out@[k].0@ == fields@[k].0@ && object_view(out@[k].1)
                    == object_view(fields@[k].1),
        decreases fields.len() - i,
    {
        let entry = &fields[i];
        out.push((entry.0.clone(), entry.1.clone()));
        i = i + 1;
    }
    assert(fields_view(out@) =~= fields_view(fields@));
    out
}

impl Clone for Object {
    /// A deep copy: the same value, sharing nothing that can change.
    fn clone(&self) -> (r: Self)
        ensures
            r@ == self@,
        decreases self,
    {
        match self {
            Object::Null => Object::Null,
            Object::Type(t) => Object::Type(t.clone()),
            Object::Int(v) => Object::Int(*v),
            Object::Float(bits) => Object::Float(*bits),
            Object::Boolean(b) => Object::Boolean(*b),
            Object::String(s) => Object::String(s.clone()),
            Object::RetVal(inner) => Object::RetVal(Box::new((&**inner).clone())),
            Object::Array { inner, items_type } => Object::Array {
                inner: clone_objects(inner),
                items_type: match items_type {
                    Some(t) => Some(t.clone()),
                    None => None,
                },
            },
            Object::UserDefinedFunction { params, body, return_type } => {
                Object::UserDefinedFunction {
                    params: clone_params(params),
                    body: share_block(body),
                    return_type: return_type.clone(),
                }
            },
            Object::BuiltInFunction(f) => Object::BuiltInFunction(*f),
            Object::Range { start, end, step } => Object::Range {
                start: *start,
                end: *end,
                step: *step,
            },
            Object::Module(m) => Object::Module(
                Module {
                    name: m.name.clone(),
                    fields: FieldsManager { fields: clone_fields(&m.fields.fields) },
                },
            ),
        }
    }
}

impl Clone for ObjectInfo {
    fn clone(&self) -> (r: Self)
        ensures
            r@ == self@,
    {
        ObjectInfo { is_mut: self.is_mut, type_: self.type_.clone(), value: self.value.clone() }
    }
}

impl Object {
    /// The runtime type of the value.
    pub fn ask_type(&self) -> (r: Type)
        ensures
            r == self@.type_of(),
        decreases self,
    {
        match self {
            Object::Null => Type::Null,
            Object::String(_) => Type::String,
            Object::Boolean(_) => Type::Boolean,
            Object::BuiltInFunction(_) => Type::Function,
            Object::UserDefinedFunction { .. } => Type::Function,
            Object::RetVal(val) => (&**val).ask_type(),
            Object::Type(_) => Type::TypeAnnot,
            Object::Range { .. } => Type::Range,
            Object::Int(_) => Type::Int,
            Object::Float(_) => Type::Float,
            Object::Array { inner: _, items_type } => match items_type {
                None => Type::Array(None),
                Some(t) => Type::Array(Some(Box::new(t.clone()))),
            },
            Object::Module(_) => Type::Module,
        }
    }
}

/// The echo forms of a list of values, separated by a comma and a space.
fn list_to_string<H: Host>(items: &Vec<Object>, host: &H) -> (r: String)
    ensures
        (forall|i: int| 0 <= i < items@.len() ==> (#[trigger] objects_view(items@)[i]).float_free())
            ==> r@ == echo_list(objects_view(items@)),
    decreases items,
{
    let mut out = String::new();
    let mut i: usize = 0;
    let ghost views = objects_view(items@);
    assert(views.subrange(0, 0) =~= Seq::<ObjectView>::empty());
    while i < items.len()
        invariant
            i <= items@.len(),
            views == objects_view(items@),
            (forall|k: int| 0 <= k < items@.len() ==> (#[trigger] views[k]).float_free())
                ==> out@ == echo_list(views.subrange(0, i as int)),
        decreases items@.len() - i,
    {
        if i > 0 {
            out.append(", ");
        }
        let shown = items[i].to_string(host);
        out.append(shown.as_str());
        proof {
            let upto = views.subrange(0, i + 1);
            assert(upto.drop_last() =~= views.subrange(0, i as int));
            assert(upto.last() == views[i as int]);
            assert(views[i as int] == object_view(items@[i as int]));
            if i == 0 {
                assert(Seq::<char>::empty() + shown@ =~= shown@);
            }
        }
        i = i + 1;
    }
    assert(views.subrange(0, items@.len() as int) =~= views);
    out
}

impl Object {
    /// The echo form of the value; `host` renders the floats in it.
    pub fn to_string<H: Host>(&self, host: &H) -> (r: String)
        ensures
            self@.float_free() ==> r@ == self@.echo(),
        decreases self,
    {
        match self {
            Object::String(val) => {
                let mut out = join("'", val.as_str());
                out.append("'");
                out
            },
            Object::Int(val) => int_to_string(*val),
            Object::Float(bits) => host.float_to_text(*bits),
            Object::BuiltInFunction(_) => owned("[Builtin Function]"),
            Object::Null => owned("null"),
            Object::RetVal(val) => (&**val).to_string(host),
            Object::Boolean(val) => bool_to_string(*val),
            Object::Type(val) => val.to_string(),
            Object::Range { start, end, step } => {
                let a = int_to_string(*start);
                let b = int_to_string(*end);
                let c = int_to_string(*step);
                let mut out = join("range(", a.as_str());
                out.append(", ");
                out.append(b.as_str());
                out.append(", ");
                out.append(c.as_str());
                out.append(")");
                out
            },
            Object::UserDefinedFunction { .. } => owned("[User Defined Function]"),
            Object::Array { inner, items_type: _ } => {
                let items = list_to_string(inner, host);
                let mut out = join("[", items.as_str());
                out.append("]");
                out
            },
            Object::Module(m) => join("[Module] ", m.name.as_str()),
        }
    }

    /// The form of the value that `print` writes; `host` renders the floats
    /// in it.
    pub fn to_plain_string<H: Host>(&self, host: &H) -> (r: String)
        ensures
            self@.float_free() ==> r@ == self@.plain(),
    {
        match self {
            Object::String(val) => val.clone(),
            _ => self.to_string(host),
        }
    }
}

/// The models of a list of argument bindings.
pub open spec fn infos_view(infos: Seq<ObjectInfo>) -> Seq<ObjectInfoView> {
    Seq::new(infos.len(), |i: int| infos[i]@)
}

} // verus!
