use vstd::prelude::*;

verus! {

/// The one value type of the language: parsed syntax and runtime result.
///
/// A number is a 64-bit IEEE-754 float, held by its bit pattern.
#[derive(Debug, PartialEq, Eq)]
pub enum Object {
    Void,
    Number(u64),
    Bool(bool),
    Symbol(String),
    /// Parameter names and the unevaluated body forms.
    Function(Vec<String>, Vec<Object>),
    List(Vec<Object>),
}

/// The mathematical model of an `Object`: strings as character sequences,
/// vectors as sequences.
pub enum Val {
    Void,
    Number(u64),
    Bool(bool),
    Symbol(Seq<char>),
    Function(Seq<Seq<char>>, Seq<Val>),
    List(Seq<Val>),
}

/// The model of a list of names.
pub open spec fn names_view(v: Seq<String>) -> Seq<Seq<char>> {
    Seq::new(v.len(), |i: int| v[i]@)
}

/// The model of a sequence of objects.
pub open spec fn seq_view(s: Seq<Object>) -> Seq<Val>
    decreases s,
{
    if s.len() == 0 {
        Seq::empty()
    } else {
        seq_view(s.drop_last()).push(obj_view(s.last()))
    }
}

/// The model of an object.
pub open spec fn obj_view(o: Object) -> Val
    decreases o,
{
    match o {
        Object::Void => Val::Void,
        Object::Number(n) => Val::Number(n),
        Object::Bool(b) => Val::Bool(b),
        Object::Symbol(s) => Val::Symbol(s@),
        Object::Function(p, b) => Val::Function(names_view(p@), seq_view(b@)),
        Object::List(l) => Val::List(seq_view(l@)),
    }
}

impl View for Object {
    type V = Val;

    open spec fn view(&self) -> Val {
        obj_view(*self)
    }
}

/// The binary operators of the language.
#[derive(Debug, PartialEq, Eq, Clone, Copy)]
pub enum BinOp {
    Add,
    Sub,
    Mul,
    Div,
    Lt,
    Gt,
    Eq,
    Ne,
}

/// How two numbers compare; `Unordered` when either is not a number (NaN).
#[derive(Debug, PartialEq, Eq, Clone, Copy)]
pub enum Order {
    Less,
    Equal,
    Greater,
    Unordered,
}

impl BinOp {
    /// Whether the operator yields a number rather than a boolean.
    pub open spec fn is_arithmetic(self) -> bool {
        self is Add || self is Sub || self is Mul || self is Div
    }
}

/// What a comparison operator yields from the order of its operands.
pub open spec fn compare_spec(op: BinOp, o: Order) -> bool {
    match op {
        BinOp::Lt => o is Less,
        BinOp::Gt => o is Greater,
        BinOp::Eq => o is Equal,
        _ => !(o is Equal),
    }
}

/// Decides a comparison operator from the order of its operands.
pub fn compare_by(op: BinOp, o: Order) -> (r: bool)
    requires
        !op.is_arithmetic(),
    ensures
        r == compare_spec(op, o),
{
    match op {
        BinOp::Lt => matches!(o, Order::Less),
        BinOp::Gt => matches!(o, Order::Greater),
        BinOp::Eq => matches!(o, Order::Equal),
        _ => !matches!(o, Order::Equal),
    }
}

/// Copies a string, keeping its characters.
pub fn copy_string(s: &String) -> (r: String)
    ensures
        r@ == s@,
{
    s.clone()
}

/// Copies a list of strings, keeping every one.
pub fn copy_strings(v: &Vec<String>) -> (r: Vec<String>)
    ensures
        names_view(r@) == names_view(v@),
{
    let mut r: Vec<String> = Vec::new();
    let mut i: usize = 0;
    while i < v.len()
        invariant
            i <= v@.len(),
            r@.len() == i,
            forall|j: int| 0 <= j < i ==> #[trigger] r@[j]@ == v@[j]@,
        decreases v@.len() - i,
    {
        r.push(copy_string(&v[i]));
        i = i + 1;
    }
    assert(names_view(r@) =~= names_view(v@));
    r
}

/// The model of a sequence is the model of each item, in order.
pub proof fn lemma_seq_view(s: Seq<Object>)
    ensures
        seq_view(s).len() == s.len(),
        forall|i: int| 0 <= i < s.len() ==> #[trigger] seq_view(s)[i] == obj_view(s[i]),
    decreases s.len(),
{
    if s.len() > 0 {
        lemma_seq_view(s.drop_last());
    }
}

/// Copies a sequence of objects, keeping their model.
pub fn copy_objects(v: &Vec<Object>) -> (r: Vec<Object>)
    ensures
        seq_view(r@) == seq_view(v@),
    decreases v,
{
    let mut r: Vec<Object> = Vec::new();
    let mut i: usize = 0;
    while i < v.len()
        invariant
            i <= v@.len(),
            seq_view(r@) == seq_view(v@.subrange(0, i as int)),
        decreases v@.len() - i,
    {
        let c = copy_object(&v[i]);
        proof {
            assert(r@.push(c).drop_last() == r@);
            assert(v@.subrange(0, i + 1).drop_last() == v@.subrange(0, i as int));
        }
        r.push(c);
        i = i + 1;
    }
    assert(v@.subrange(0, v@.len() as int) == v@);
    r
}

/// Copies an object, keeping its model.
pub fn copy_object(o: &Object) -> (r: Object)
    ensures
        r@ == o@,
    decreases o,
{
    match o {
        Object::Void => Object::Void,
        Object::Number(n) => Object::Number(*n),
        Object::Bool(b) => Object::Bool(*b),
        Object::Symbol(s) => Object::Symbol(copy_string(s)),
        Object::Function(p, b) => Object::Function(copy_strings(p), copy_objects(b)),
        Object::List(l) => Object::List(copy_objects(l)),
    }
}

} // verus!
