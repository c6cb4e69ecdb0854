use vstd::prelude::*;

use crate::env::{Env, EnvModel, FrameModel, lookup, bind};
use crate::errors::{EvaluatorError, Failure};
use crate::parser::{parse, parse_spec};
use crate::token::{literal_ok, literal_of};
use crate::value::{
    Object, Val, BinOp, Order, compare_by, compare_spec, copy_object, copy_objects, copy_string,
    names_view, seq_view, obj_view, lemma_seq_view,
};

verus! {

/// How the head symbol of a group is treated.
pub enum Form {
    Op(BinOp),
    If,
    Define,
    Lambda,
    Call,
}

/// The form that a head symbol selects.
pub open spec fn form_of(s: Seq<char>) -> Form {
    if s == seq!['+'] {
        Form::Op(BinOp::Add)
    } else if s == seq!['-'] {
        Form::Op(BinOp::Sub)
    } else if s == seq!['*'] {
        Form::Op(BinOp::Mul)
    } else if s == seq!['/'] {
        Form::Op(BinOp::Div)
    } else if s == seq!['<'] {
        Form::Op(BinOp::Lt)
    } else if s == seq!['>'] {
        Form::Op(BinOp::Gt)
    } else if s == seq!['='] {
        Form::Op(BinOp::Eq)
    } else if s == seq!['!', '='] {
        Form::Op(BinOp::Ne)
    } else if s == seq!['i', 'f'] {
        Form::If
    } else if s == seq!['d', 'e', 'f', 'i', 'n', 'e'] {
        Form::Define
    } else if s == seq!['l', 'a', 'm', 'b', 'd', 'a'] {
        Form::Lambda
    } else {
        Form::Call
    }
}

/// Number arithmetic as a mathematical function.
pub type ArithFn = spec_fn(BinOp, u64, u64) -> u64;

/// Number ordering as a mathematical function.
pub type OrderFn = spec_fn(u64, u64) -> Order;

/// The number primitives can always be called and give one result for
/// each input.
pub open spec fn prims_ok<A: Fn(BinOp, u64, u64) -> u64, C: Fn(u64, u64) -> Order>(
    arith: A,
    order: C,
) -> bool {
    &&& forall|op: BinOp, x: u64, y: u64| #[trigger] arith.requires((op, x, y))
    &&& forall|op: BinOp, x: u64, y: u64, r1: u64, r2: u64|
        #[trigger] arith.ensures((op, x, y), r1) && #[trigger] arith.ensures((op, x, y), r2) ==> r1
            == r2
    &&& forall|x: u64, y: u64| #[trigger] order.requires((x, y))
    &&& forall|x: u64, y: u64, r1: Order, r2: Order|
        #[trigger] order.ensures((x, y), r1) && #[trigger] order.ensures((x, y), r2) ==> r1 == r2
}

/// The function that an arithmetic closure computes.
pub open spec fn arith_of<A: Fn(BinOp, u64, u64) -> u64>(arith: A) -> ArithFn {
    |op: BinOp, x: u64, y: u64| choose|r: u64| arith.ensures((op, x, y), r)
}

/// The function that an ordering closure computes.
pub open spec fn order_of<C: Fn(u64, u64) -> Order>(order: C) -> OrderFn {
    |x: u64, y: u64| choose|r: Order| order.ensures((x, y), r)
}

/// What a binary operator gives on two numbers.
pub open spec fn apply_op(ar: ArithFn, ord: OrderFn, op: BinOp, x: u64, y: u64) -> Val {
    if op.is_arithmetic() {
        Val::Number(ar(op, x, y))
    } else {
        Val::Bool(compare_spec(op, ord(x, y)))
    }
}

/// The outcome of an evaluation: its result, and the environment after it.
pub type Outcome = (Result<Val, Failure>, EnvModel);

/// The frame of a call: each parameter bound, in order, to its argument.
pub open spec fn call_frame(params: Seq<Seq<char>>, args: Seq<Val>, k: int) -> FrameModel
    decreases k,
{
    if k <= 0 {
        Map::empty()
    } else {
        call_frame(params, args, k - 1).insert(params[k - 1], args[k - 1])
    }
}

/// Every item of a parameter list is a symbol.
pub open spec fn all_symbols(s: Seq<Val>) -> bool {
    forall|i: int| 0 <= i < s.len() ==> #[trigger] s[i] is Symbol
}

/// The names of a list of symbols.
pub open spec fn symbol_names(s: Seq<Val>) -> Seq<Seq<char>> {
    Seq::new(s.len(), |i: int| s[i]->Symbol_0)
}

/// What a `lambda` form with head `s` and items `items` gives.
pub open spec fn lambda_outcome(s: Seq<char>, items: Seq<Val>) -> Result<Val, Failure> {
    if items.len() != 3 {
        Err(Failure::ArityMismatch(s))
    } else {
        match (items[1], items[2]) {
            (Val::List(ps), Val::List(body)) => if all_symbols(ps) {
                Ok(Val::Function(symbol_names(ps), body))
            } else {
                Err(Failure::MalformedForm(s))
            },
            _ => Err(Failure::MalformedForm(s)),
        }
    }
}

/// Evaluates `x` in environment `e`; `fuel` bounds the nesting depth.
pub open spec fn eval_spec(ar: ArithFn, ord: OrderFn, fuel: nat, x: Val, e: EnvModel) -> Outcome
    decreases fuel, 0int, 0int,
{
    if fuel == 0 {
        (Err(Failure::DepthExhausted), e)
    } else {
        let f = (fuel - 1) as nat;
        match x {
            Val::Void => (Ok(Val::Void), e),
            Val::Function(_, _) => (Ok(Val::Void), e),
            Val::Number(n) => (Ok(Val::Number(n)), e),
            Val::Bool(b) => (Ok(Val::Bool(b)), e),
            Val::Symbol(s) => match lookup(e, s) {
                Some(v) => (Ok(v), e),
                None => (Err(Failure::UnboundSymbol(s)), e),
            },
            Val::List(items) => {
                if items.len() > 0 && items[0] is Symbol {
                    let s = items[0]->Symbol_0;
                    match form_of(s) {
                        Form::Op(op) => {
                            if items.len() != 3 {
                                (Err(Failure::ArityMismatch(s)), e)
                            } else {
                                let (l, e1) = eval_spec(ar, ord, f, items[1], e);
                                match l {
                                    Err(err) => (Err(err), e1),
                                    Ok(lv) => {
                                        let (r, e2) = eval_spec(ar, ord, f, items[2], e1);
                                        match r {
                                            Err(err) => (Err(err), e2),
                                            Ok(rv) => match (lv, rv) {
                                                (Val::Number(a), Val::Number(b)) => (
                                                    Ok(apply_op(ar, ord, op, a, b)),
                                                    e2,
                                                ),
                                                _ => (Err(Failure::TypeMismatch(s)), e2),
                                            },
                                        }
                                    },
                                }
                            }
                        },
                        Form::If => {
                            if items.len() != 4 {
                                (Err(Failure::ArityMismatch(s)), e)
                            } else {
                                let (c, e1) = eval_spec(ar, ord, f, items[1], e);
                                match c {
                                    Err(err) => (Err(err), e1),
                                    Ok(Val::Bool(b)) => if b {
                                        eval_spec(ar, ord, f, items[2], e1)
                                    } else {
                                        eval_spec(ar, ord, f, items[3], e1)
                                    },
                                    Ok(_) => (Err(Failure::TypeMismatch(s)), e1),
                                }
                            }
                        },
                        Form::Define => {
                            if items.len() != 3 {
                                (Err(Failure::ArityMismatch(s)), e)
                            } else if !(items[1] is Symbol) {
                                (Err(Failure::MalformedForm(s)), e)
                            } else {
                                let (v, e1) = eval_spec(ar, ord, f, items[2], e);
                                match v {
                                    Err(err) => (Err(err), e1),
                                    Ok(v) => (Ok(Val::Void), bind(e1, items[1]->Symbol_0, v)),
                                }
                            }
                        },
                        Form::Lambda => (lambda_outcome(s, items), e),
                        Form::Call => match lookup(e, s) {
                            None => (Err(Failure::UndefinedFunction(s)), e),
                            Some(Val::Function(params, body)) => {
                                let (a, e1) = eval_args(ar, ord, f, items, 1, seq![], e);
                                match a {
                                    Err(err) => (Err(err), e1),
                                    Ok(args) => if args.len() < params.len() {
                                        (Err(Failure::ArityMismatch(s)), e1)
                                    } else {
                                        let inner = e1.push(call_frame(params, args, params.len() as int));
                                        let (r, e2) = eval_spec(ar, ord, f, Val::List(body), inner);
                                        (r, e2.drop_last())
                                    },
                                }
                            },
                            Some(_) => (Err(Failure::NotCallable(s)), e),
                        },
                    }
                } else {
                    let (r, e1) = eval_seq(ar, ord, f, items, 0, seq![], e);
                    match r {
                        Err(err) => (Err(err), e1),
                        Ok(vals) => (Ok(Val::List(vals)), e1),
                    }
                }
            },
        }
    }
}

/// Evaluates `items[i..]` in order against one environment, appending each
/// result that is not `Void` to `acc`; the first failure ends it.
pub open spec fn eval_seq(
    ar: ArithFn,
    ord: OrderFn,
    fuel: nat,
    items: Seq<Val>,
    i: int,
    acc: Seq<Val>,
    e: EnvModel,
) -> (Result<Seq<Val>, Failure>, EnvModel)
    decreases fuel, 1int, items.len() - i,
{
    if i < 0 || i >= items.len() {
        (Ok(acc), e)
    } else {
        let (r, e1) = eval_spec(ar, ord, fuel, items[i], e);
        match r {
            Err(err) => (Err(err), e1),
            Ok(v) => eval_seq(
                ar,
                ord,
                fuel,
                items,
                i + 1,
                if v is Void { acc } else { acc.push(v) },
                e1,
            ),
        }
    }
}

/// Evaluates the call arguments `items[i..]` in order against one
/// environment, appending every value to `acc`; the first failure ends it.
pub open spec fn eval_args(
    ar: ArithFn,
    ord: OrderFn,
    fuel: nat,
    items: Seq<Val>,
    i: int,
    acc: Seq<Val>,
    e: EnvModel,
) -> (Result<Seq<Val>, Failure>, EnvModel)
    decreases fuel, 1int, items.len() - i,
{
    if i < 0 || i >= items.len() {
        (Ok(acc), e)
    } else {
        let (r, e1) = eval_spec(ar, ord, fuel, items[i], e);
        match r {
            Err(err) => (Err(err), e1),
            Ok(v) => eval_args(ar, ord, fuel, items, i + 1, acc.push(v), e1),
        }
    }
}

} // verus!
verus! {

/// An executable result agrees with a modelled one.
pub open spec fn agrees(r: Result<Object, EvaluatorError>, o: Result<Val, Failure>) -> bool {
    match r {
        Ok(v) => o == Ok::<Val, Failure>(v@),
        Err(e) => o == Err::<Val, Failure>(e@),
    }
}

/// An executable list of results agrees with a modelled one.
pub open spec fn agrees_seq(r: Result<Vec<Object>, EvaluatorError>, o: Result<Seq<Val>, Failure>) -> bool {
    match r {
        Ok(v) => o == Ok::<Seq<Val>, Failure>(seq_view(v@)),
        Err(e) => o == Err::<Seq<Val>, Failure>(e@),
    }
}

/// Whether `s` holds exactly the characters of `w`.
fn same(s: &String, w: &str) -> (r: bool)
    ensures
        r == (s@ == w@),
{
    let t = w.to_owned();
    *s == t
}

/// The form that a head symbol selects.
pub fn classify(s: &String) -> (f: Form)
    ensures
        f == form_of(s@),
{
    proof {
        reveal_strlit("+");
        assert("+"@ =~= seq!['+']);
        reveal_strlit("-");
        assert("-"@ =~= seq!['-']);
        reveal_strlit("*");
        assert("*"@ =~= seq!['*']);
        reveal_strlit("/");
        assert("/"@ =~= seq!['/']);
        reveal_strlit("<");
        assert("<"@ =~= seq!['<']);
        reveal_strlit(">");
        assert(">"@ =~= seq!['>']);
        reveal_strlit("=");
        assert("="@ =~= seq!['=']);
        reveal_strlit("!=");
        assert("!="@ =~= seq!['!', '=']);
        reveal_strlit("if");
        assert("if"@ =~= seq!['i', 'f']);
        reveal_strlit("define");
        assert("define"@ =~= seq!['d', 'e', 'f', 'i', 'n', 'e']);
        reveal_strlit("lambda");
        assert("lambda"@ =~= seq!['l', 'a', 'm', 'b', 'd', 'a']);
    }
    if same(s, "+") {
        Form::Op(BinOp::Add)
    } else if same(s, "-") {
        Form::Op(BinOp::Sub)
    } else if same(s, "*") {
        Form::Op(BinOp::Mul)
    } else if same(s, "/") {
        Form::Op(BinOp::Div)
    } else if same(s, "<") {
        Form::Op(BinOp::Lt)
    } else if same(s, ">") {
        Form::Op(BinOp::Gt)
    } else if same(s, "=") {
        Form::Op(BinOp::Eq)
    } else if same(s, "!=") {
        Form::Op(BinOp::Ne)
    } else if same(s, "if") {
        Form::If
    } else if same(s, "define") {
        Form::Define
    } else if same(s, "lambda") {
        Form::Lambda
    } else {
        Form::Call
    }
}

/// Applies a binary operator to two numbers through the number primitives.
pub fn apply_binary<A: Fn(BinOp, u64, u64) -> u64, C: Fn(u64, u64) -> Order>(
    op: BinOp,
    x: u64,
    y: u64,
    arith: &A,
    order: &C,
) -> (r: Object)
    requires
        prims_ok(*arith, *order),
    ensures
        r@ == apply_op(arith_of(*arith), order_of(*order), op, x, y),
{
    match op {
        BinOp::Add | BinOp::Sub | BinOp::Mul | BinOp::Div => {
            let n = arith(op, x, y);
            proof {
                let c = arith_of(*arith)(op, x, y);
                assert(exists|m: u64| arith.ensures((op, x, y), m));
                assert(arith.ensures((op, x, y), c));
            }
            Object::Number(n)
        },
        _ => {
            let o = order(x, y);
            proof {
                let c = order_of(*order)(x, y);
                assert(exists|m: Order| order.ensures((x, y), m));
                assert(order.ensures((x, y), c));
            }
            Object::Bool(compare_by(op, o))
        },
    }
}

} // verus!
verus! {

/// `r` and `after` are what evaluating `x` in `before` gives.
pub open spec fn evaluates<A: Fn(BinOp, u64, u64) -> u64, C: Fn(u64, u64) -> Order>(
    arith: A,
    order: C,
    fuel: nat,
    x: Val,
    before: EnvModel,
    r: Result<Object, EvaluatorError>,
    after: EnvModel,
) -> bool {
    let o = eval_spec(arith_of(arith), order_of(order), fuel, x, before);
    agrees(r, o.0) && after == o.1
}

/// Evaluates `x` in `env`, nesting at most `fuel` deep.
pub fn eval_obj<A: Fn(BinOp, u64, u64) -> u64, C: Fn(u64, u64) -> Order>(
    x: &Object,
    env: &mut Env,
    fuel: u64,
    arith: &A,
    order: &C,
) -> (r: Result<Object, EvaluatorError>)
    requires
        old(env).wf(),
        prims_ok(*arith, *order),
    ensures
        final(env).wf(),
        final(env)@.len() == old(env)@.len(),
        evaluates(*arith, *order, fuel as nat, x@, old(env)@, r, final(env)@),
    decreases fuel, 0int, 0int,
{
    if fuel == 0 {
        return Err(EvaluatorError::DepthExhausted);
    }
    let f = fuel - 1;
    match x {
        Object::Void => Ok(Object::Void),
        Object::Function(_, _) => Ok(Object::Void),
        Object::Number(n) => Ok(Object::Number(*n)),
        Object::Bool(b) => Ok(Object::Bool(*b)),
        Object::Symbol(s) => match env.get(s.as_str()) {
            Some(v) => Ok(v),
            None => Err(EvaluatorError::UnboundSymbol(copy_string(s))),
        },
        Object::List(items) => {
            proof {
                lemma_seq_view(items@);
            }
            if items.len() > 0 {
                if let Object::Symbol(s) = &items[0] {
                    return match classify(s) {
                        Form::Op(op) => eval_bin_op(op, s, items, env, f, arith, order),
                        Form::If => eval_if(s, items, env, f, arith, order),
                        Form::Define => eval_define(s, items, env, f, arith, order),
                        Form::Lambda => eval_function_definition(s, items),
                        Form::Call => eval_function_call(s, items, env, f, arith, order),
                    };
                }
            }
            match eval_sequence(items, env, f, arith, order) {
                Ok(vals) => Ok(Object::List(vals)),
                Err(e) => Err(e),
            }
        },
    }
}

/// Evaluates every item in order against `env`, keeping the results that are
/// not `Void`.
fn eval_sequence<A: Fn(BinOp, u64, u64) -> u64, C: Fn(u64, u64) -> Order>(
    items: &Vec<Object>,
    env: &mut Env,
    f: u64,
    arith: &A,
    order: &C,
) -> (r: Result<Vec<Object>, EvaluatorError>)
    requires
        old(env).wf(),
        prims_ok(*arith, *order),
    ensures
        final(env).wf(),
        final(env)@.len() == old(env)@.len(),
        ({
            let o = eval_seq(
                arith_of(*arith),
                order_of(*order),
                f as nat,
                seq_view(items@),
                0,
                seq![],
                old(env)@,
            );
            agrees_seq(r, o.0) && final(env)@ == o.1
        }),
    decreases f, 1int, 0int,
{
    let ghost ar = arith_of(*arith);
    let ghost ord = order_of(*order);
    let ghost vs = seq_view(items@);
    proof {
        lemma_seq_view(items@);
    }
    let mut acc: Vec<Object> = Vec::new();
    let mut i: usize = 0;
    while i < items.len()
        invariant
            env.wf(),
            env@.len() == old(env)@.len(),
            prims_ok(*arith, *order),
            i <= items@.len(),
            ar == arith_of(*arith),
            ord == order_of(*order),
            vs == seq_view(items@),
            vs.len() == items@.len(),
            forall|j: int| 0 <= j < items@.len() ==> #[trigger] vs[j] == obj_view(items@[j]),
            eval_seq(ar, ord, f as nat, vs, i as int, seq_view(acc@), env@) == eval_seq(
                ar,
                ord,
                f as nat,
                vs,
                0,
                seq![],
                old(env)@,
            ),
        decreases items@.len() - i,
    {
        let ghost before = env@;
        let ghost acc_v = seq_view(acc@);
        let v = eval_obj(&items[i], env, f, arith, order);
        proof {
            assert(vs[i as int] == items@[i as int]@);
            assert(eval_seq(ar, ord, f as nat, vs, i as int, acc_v, before) == ({
                let (r, e1) = eval_spec(ar, ord, f as nat, vs[i as int], before);
                match r {
                    Err(err) => (Err(err), e1),
                    Ok(w) => eval_seq(
                        ar,
                        ord,
                        f as nat,
                        vs,
                        i + 1,
                        if w is Void { acc_v } else { acc_v.push(w) },
                        e1,
                    ),
                }
            }));
        }
        match v {
            Err(e) => {
                return Err(e);
            },
            Ok(v) => {
                if !matches!(v, Object::Void) {
                    proof {
                        assert(acc@.push(v).drop_last() == acc@);
                    }
                    acc.push(v);
                }
            },
        }
        i = i + 1;
    }
    Ok(acc)
}

} // verus!
verus! {

/// Evaluates a binary-operator form `(op left right)`.
pub fn eval_bin_op<A: Fn(BinOp, u64, u64) -> u64, C: Fn(u64, u64) -> Order>(
    op: BinOp,
    s: &String,
    items: &Vec<Object>,
    env: &mut Env,
    f: u64,
    arith: &A,
    order: &C,
) -> (r: Result<Object, EvaluatorError>)
    requires
        old(env).wf(),
        prims_ok(*arith, *order),
        f < u64::MAX,
        items@.len() > 0,
        obj_view(items@[0]) == Val::Symbol(s@),
        form_of(s@) == Form::Op(op),
    ensures
        final(env).wf(),
        final(env)@.len() == old(env)@.len(),
        evaluates(*arith, *order, (f + 1) as nat, Object::List(*items)@, old(env)@, r, final(env)@),
    decreases f, 2int, 0int,
{
    proof {
        lemma_seq_view(items@);
    }
    if items.len() != 3 {
        return Err(EvaluatorError::ArityMismatch(copy_string(s)));
    }
    let lv = match eval_obj(&items[1], env, f, arith, order) {
        Err(e) => {
            return Err(e);
        },
        Ok(v) => v,
    };
    let rv = match eval_obj(&items[2], env, f, arith, order) {
        Err(e) => {
            return Err(e);
        },
        Ok(v) => v,
    };
    match (&lv, &rv) {
        (Object::Number(a), Object::Number(b)) => Ok(apply_binary(op, *a, *b, arith, order)),
        _ => Err(EvaluatorError::TypeMismatch(copy_string(s))),
    }
}

/// Evaluates a conditional form `(if cond then else)`.
pub fn eval_if<A: Fn(BinOp, u64, u64) -> u64, C: Fn(u64, u64) -> Order>(
    s: &String,
    items: &Vec<Object>,
    env: &mut Env,
    f: u64,
    arith: &A,
    order: &C,
) -> (r: Result<Object, EvaluatorError>)
    requires
        old(env).wf(),
        prims_ok(*arith, *order),
        f < u64::MAX,
        items@.len() > 0,
        obj_view(items@[0]) == Val::Symbol(s@),
        form_of(s@) == Form::If,
    ensures
        final(env).wf(),
        final(env)@.len() == old(env)@.len(),
        evaluates(*arith, *order, (f + 1) as nat, Object::List(*items)@, old(env)@, r, final(env)@),
    decreases f, 2int, 0int,
{
    proof {
        lemma_seq_view(items@);
    }
    if items.len() != 4 {
        return Err(EvaluatorError::ArityMismatch(copy_string(s)));
    }
    match eval_obj(&items[1], env, f, arith, order) {
        Err(e) => Err(e),
        Ok(Object::Bool(b)) => {
            if b {
                eval_obj(&items[2], env, f, arith, order)
            } else {
                eval_obj(&items[3], env, f, arith, order)
            }
        },
        Ok(_) => Err(EvaluatorError::TypeMismatch(copy_string(s))),
    }
}

/// Evaluates a binding form `(define name value)`.
pub fn eval_define<A: Fn(BinOp, u64, u64) -> u64, C: Fn(u64, u64) -> Order>(
    s: &String,
    items: &Vec<Object>,
    env: &mut Env,
    f: u64,
    arith: &A,
    order: &C,
) -> (r: Result<Object, EvaluatorError>)
    requires
        old(env).wf(),
        prims_ok(*arith, *order),
        f < u64::MAX,
        items@.len() > 0,
        obj_view(items@[0]) == Val::Symbol(s@),
        form_of(s@) == Form::Define,
    ensures
        final(env).wf(),
        final(env)@.len() == old(env)@.len(),
        evaluates(*arith, *order, (f + 1) as nat, Object::List(*items)@, old(env)@, r, final(env)@),
    decreases f, 2int, 0int,
{
    proof {
        lemma_seq_view(items@);
    }
    if items.len() != 3 {
        return Err(EvaluatorError::ArityMismatch(copy_string(s)));
    }
    let name = match &items[1] {
        Object::Symbol(name) => name,
        _ => {
            return Err(EvaluatorError::MalformedForm(copy_string(s)));
        },
    };
    match eval_obj(&items[2], env, f, arith, order) {
        Err(e) => Err(e),
        Ok(v) => {
            env.set(name.as_str(), v);
            Ok(Object::Void)
        },
    }
}

/// Builds the procedure of a `(lambda (params...) body)` form; the body is
/// kept unevaluated.
pub fn eval_function_definition(s: &String, items: &Vec<Object>) -> (r: Result<Object, EvaluatorError>)
    ensures
        agrees(r, lambda_outcome(s@, seq_view(items@))),
{
    proof {
        lemma_seq_view(items@);
    }
    if items.len() != 3 {
        return Err(EvaluatorError::ArityMismatch(copy_string(s)));
    }
    match (&items[1], &items[2]) {
        (Object::List(ps), Object::List(body)) => {
            let ghost pv = seq_view(ps@);
            proof {
                lemma_seq_view(ps@);
            }
            assert(seq_view(items@)[1] == Val::List(pv));
            assert(seq_view(items@)[2] == Val::List(seq_view(body@)));
            let mut names: Vec<String> = Vec::new();
            let mut j: usize = 0;
            while j < ps.len()
                invariant
                    j <= ps@.len(),
                    items@.len() == 3,
                    seq_view(items@).len() == 3,
                    seq_view(items@)[1] == Val::List(pv),
                    seq_view(items@)[2] == Val::List(seq_view(body@)),
                    pv == seq_view(ps@),
                    pv.len() == ps@.len(),
                    forall|k: int| 0 <= k < ps@.len() ==> #[trigger] pv[k] == obj_view(ps@[k]),
                    names@.len() == j,
                    forall|k: int| 0 <= k < j ==> #[trigger] pv[k] is Symbol,
                    forall|k: int| 0 <= k < j ==> #[trigger] names@[k]@ == pv[k]->Symbol_0,
                decreases ps@.len() - j,
            {
                match &ps[j] {
                    Object::Symbol(p) => {
                        names.push(copy_string(p));
                    },
                    _ => {
                        proof {
                            assert(!(pv[j as int] is Symbol));
                            assert(seq_view(items@)[1] == Val::List(pv));
                            assert(!all_symbols(pv));
                        }
                        return Err(EvaluatorError::MalformedForm(copy_string(s)));
                    },
                }
                j = j + 1;
            }
            let b = copy_objects(body);
            proof {
                assert(names_view(names@) =~= symbol_names(pv));
            }
            Ok(Object::Function(names, b))
        },
        _ => Err(EvaluatorError::MalformedForm(copy_string(s))),
    }
}

} // verus!
verus! {

/// Evaluates every argument `items[1..]` of a call, in order, against the
/// calling environment.
fn eval_arguments<A: Fn(BinOp, u64, u64) -> u64, C: Fn(u64, u64) -> Order>(
    items: &Vec<Object>,
    env: &mut Env,
    f: u64,
    arith: &A,
    order: &C,
) -> (r: Result<Vec<Object>, EvaluatorError>)
    requires
        old(env).wf(),
        prims_ok(*arith, *order),
    ensures
        final(env).wf(),
        final(env)@.len() == old(env)@.len(),
        ({
            let o = eval_args(
                arith_of(*arith),
                order_of(*order),
                f as nat,
                seq_view(items@),
                1,
                seq![],
                old(env)@,
            );
            agrees_seq(r, o.0) && final(env)@ == o.1
        }),
    decreases f, 1int, 0int,
{
    let ghost ar = arith_of(*arith);
    let ghost ord = order_of(*order);
    let ghost vs = seq_view(items@);
    proof {
        lemma_seq_view(items@);
    }
    let mut acc: Vec<Object> = Vec::new();
    let mut i: usize = 1;
    while i < items.len()
        invariant
            env.wf(),
            env@.len() == old(env)@.len(),
            prims_ok(*arith, *order),
            1 <= i,
            ar == arith_of(*arith),
            ord == order_of(*order),
            vs == seq_view(items@),
            vs.len() == items@.len(),
            forall|j: int| 0 <= j < items@.len() ==> #[trigger] vs[j] == obj_view(items@[j]),
            eval_args(ar, ord, f as nat, vs, i as int, seq_view(acc@), env@) == eval_args(
                ar,
                ord,
                f as nat,
                vs,
                1,
                seq![],
                old(env)@,
            ),
        decreases items@.len() - i,
    {
        let ghost before = env@;
        let ghost acc_v = seq_view(acc@);
        let v = eval_obj(&items[i], env, f, arith, order);
        proof {
            assert(vs[i as int] == items@[i as int]@);
            assert(eval_args(ar, ord, f as nat, vs, i as int, acc_v, before) == ({
                let (r, e1) = eval_spec(ar, ord, f as nat, vs[i as int], before);
                match r {
                    Err(err) => (Err(err), e1),
                    Ok(w) => eval_args(ar, ord, f as nat, vs, i + 1, acc_v.push(w), e1),
                }
            }));
        }
        match v {
            Err(e) => {
                return Err(e);
            },
            Ok(v) => {
                proof {
                    assert(acc@.push(v).drop_last() == acc@);
                }
                acc.push(v);
            },
        }
        i = i + 1;
    }
    Ok(acc)
}

/// Calls the procedure bound to `s`: evaluates the arguments in the calling
/// environment, binds them in a new frame whose parent is the calling
/// frame, evaluates the body there and discards the frame.
pub fn eval_function_call<A: Fn(BinOp, u64, u64) -> u64, C: Fn(u64, u64) -> Order>(
    s: &String,
    items: &Vec<Object>,
    env: &mut Env,
    f: u64,
    arith: &A,
    order: &C,
) -> (r: Result<Object, EvaluatorError>)
    requires
        old(env).wf(),
        prims_ok(*arith, *order),
        f < u64::MAX,
        items@.len() > 0,
        obj_view(items@[0]) == Val::Symbol(s@),
        form_of(s@) == Form::Call,
    ensures
        final(env).wf(),
        final(env)@.len() == old(env)@.len(),
        evaluates(*arith, *order, (f + 1) as nat, Object::List(*items)@, old(env)@, r, final(env)@),
    decreases f, 2int, 0int,
{
    proof {
        lemma_seq_view(items@);
    }
    match env.get(s.as_str()) {
        None => Err(EvaluatorError::UndefinedFunction(copy_string(s))),
        Some(Object::Function(params, body)) => {
            let args = match eval_arguments(items, env, f, arith, order) {
                Err(e) => {
                    return Err(e);
                },
                Ok(a) => a,
            };
            proof {
                lemma_seq_view(args@);
            }
            if args.len() < params.len() {
                return Err(EvaluatorError::ArityMismatch(copy_string(s)));
            }
            let ghost e1 = env@;
            let ghost pv = names_view(params@);
            let ghost av = seq_view(args@);
            proof {
                lemma_seq_view(args@);
            }
            env.extend();
            let mut k: usize = 0;
            while k < params.len()
                invariant
                    env.wf(),
                    k <= params@.len(),
                    args@.len() >= params@.len(),
                    pv == names_view(params@),
                    av == seq_view(args@),
                    av.len() == args@.len(),
                    forall|j: int| 0 <= j < args@.len() ==> #[trigger] av[j] == obj_view(args@[j]),
                    env@ == e1.push(call_frame(pv, av, k as int)),
                decreases params@.len() - k,
            {
                let v = copy_object(&args[k]);
                env.set(params[k].as_str(), v);
                proof {
                    assert(bind(e1.push(call_frame(pv, av, k as int)), pv[k as int], av[k as int])
                        =~= e1.push(call_frame(pv, av, k + 1)));
                }
                k = k + 1;
            }
            let call_body = Object::List(body);
            let r = eval_obj(&call_body, env, f, arith, order);
            env.retract();
            r
        },
        Some(_) => Err(EvaluatorError::NotCallable(copy_string(s))),
    }
}

} // verus!
verus! {

/// The nesting budget of `eval`: in practice the host stack runs out first.
pub const DEPTH_LIMIT: u64 = 0xFFFF_FFFF_FFFF_FFFF;

/// Parses `code` and evaluates the tree against `env`. A parse failure is
/// reported as `EvaluatorError::Parse` and leaves `env` as it was.
pub fn eval<
    L: Fn(&str) -> Option<u64>,
    A: Fn(BinOp, u64, u64) -> u64,
    C: Fn(u64, u64) -> Order,
>(code: &str, env: &mut Env, literal: &L, arith: &A, order: &C) -> (r: Result<
    Object,
    EvaluatorError,
>)
    requires
        old(env).wf(),
        literal_ok(*literal),
        prims_ok(*arith, *order),
    ensures
        final(env).wf(),
        match parse_spec(literal_of(*literal), code@) {
            Err(pf) => r matches Err(EvaluatorError::Parse(e)) && e@ == pf && final(env)@ == old(
                env,
            )@,
            Ok(tree) => evaluates(
                *arith,
                *order,
                DEPTH_LIMIT as nat,
                tree,
                old(env)@,
                r,
                final(env)@,
            ),
        },
{
    match parse(code, literal) {
        Ok(tree) => eval_obj(&tree, env, DEPTH_LIMIT, arith, order),
        Err(e) => Err(EvaluatorError::Parse(e)),
    }
}

} // verus!
verus! {

/// Evaluation writes into the current frame only: every frame of the chain
/// but the last is left as it was, and the chain keeps its length.
pub proof fn lemma_only_current_frame(ar: ArithFn, ord: OrderFn, fuel: nat, x: Val, e: EnvModel)
    requires
        e.len() >= 1,
    ensures
        eval_spec(ar, ord, fuel, x, e).1.len() == e.len(),
        eval_spec(ar, ord, fuel, x, e).1.drop_last() == e.drop_last(),
    decreases fuel, 0int, 0int,
{
    if fuel > 0 {
        let f = (fuel - 1) as nat;
        if let Val::List(items) = x {
            if items.len() > 0 && items[0] is Symbol {
                let s = items[0]->Symbol_0;
                match form_of(s) {
                    Form::Op(_) => {
                        if items.len() == 3 {
                            lemma_only_current_frame(ar, ord, f, items[1], e);
                            let e1 = eval_spec(ar, ord, f, items[1], e).1;
                            lemma_only_current_frame(ar, ord, f, items[2], e1);
                        }
                    },
                    Form::If => {
                        if items.len() == 4 {
                            lemma_only_current_frame(ar, ord, f, items[1], e);
                            let e1 = eval_spec(ar, ord, f, items[1], e).1;
                            lemma_only_current_frame(ar, ord, f, items[2], e1);
                            lemma_only_current_frame(ar, ord, f, items[3], e1);
                        }
                    },
                    Form::Define => {
                        if items.len() == 3 {
                            lemma_only_current_frame(ar, ord, f, items[2], e);
                            let (v, e1) = eval_spec(ar, ord, f, items[2], e);
                            if let Ok(w) = v {
                                if items[1] is Symbol {
                                    assert(bind(e1, items[1]->Symbol_0, w).drop_last() =~= e1.drop_last());
                                }
                            }
                        }
                    },
                    Form::Lambda => {},
                    Form::Call => {
                        if let Some(Val::Function(params, body)) = lookup(e, s) {
                            lemma_args_only_current_frame(ar, ord, f, items, 1, seq![], e);
                            let (a, e1) = eval_args(ar, ord, f, items, 1, seq![], e);
                            if a is Ok && a->Ok_0.len() >= params.len() {
                                let args = a->Ok_0;
                                let inner = e1.push(call_frame(params, args, params.len() as int));
                                lemma_only_current_frame(ar, ord, f, Val::List(body), inner);
                                let e2 = eval_spec(ar, ord, f, Val::List(body), inner).1;
                                assert(e2.drop_last() =~= inner.drop_last());
                                assert(inner.drop_last() =~= e1);
                            }
                        }
                    },
                }
            } else {
                lemma_seq_only_current_frame(ar, ord, f, items, 0, seq![], e);
            }
        }
    }
}

/// A sequence of evaluations writes into the current frame only.
pub proof fn lemma_seq_only_current_frame(
    ar: ArithFn,
    ord: OrderFn,
    fuel: nat,
    items: Seq<Val>,
    i: int,
    acc: Seq<Val>,
    e: EnvModel,
)
    requires
        e.len() >= 1,
    ensures
        eval_seq(ar, ord, fuel, items, i, acc, e).1.len() == e.len(),
        eval_seq(ar, ord, fuel, items, i, acc, e).1.drop_last() == e.drop_last(),
    decreases fuel, 1int, items.len() - i,
{
    if 0 <= i < items.len() {
        lemma_only_current_frame(ar, ord, fuel, items[i], e);
        let (r, e1) = eval_spec(ar, ord, fuel, items[i], e);
        if let Ok(v) = r {
            lemma_seq_only_current_frame(
                ar,
                ord,
                fuel,
                items,
                i + 1,
                if v is Void { acc } else { acc.push(v) },
                e1,
            );
        }
    }
}

/// Evaluating the arguments of a call writes into the current frame only.
pub proof fn lemma_args_only_current_frame(
    ar: ArithFn,
    ord: OrderFn,
    fuel: nat,
    items: Seq<Val>,
    i: int,
    acc: Seq<Val>,
    e: EnvModel,
)
    requires
        e.len() >= 1,
    ensures
        eval_args(ar, ord, fuel, items, i, acc, e).1.len() == e.len(),
        eval_args(ar, ord, fuel, items, i, acc, e).1.drop_last() == e.drop_last(),
    decreases fuel, 1int, items.len() - i,
{
    if 0 <= i < items.len() {
        lemma_only_current_frame(ar, ord, fuel, items[i], e);
        let (r, e1) = eval_spec(ar, ord, fuel, items[i], e);
        if let Ok(v) = r {
            lemma_args_only_current_frame(ar, ord, fuel, items, i + 1, acc.push(v), e1);
        }
    }
}

} // verus!
verus! {

/// A call leaves the environment exactly as its arguments' evaluation left
/// it: the call's own frame, with whatever the body defined there, is
/// discarded, while what the arguments defined in the caller's frames
/// stays.
pub proof fn lemma_call_discards_frame(
    ar: ArithFn,
    ord: OrderFn,
    fuel: nat,
    items: Seq<Val>,
    e: EnvModel,
)
    requires
        e.len() >= 1,
        fuel >= 1,
        items.len() > 0,
        items[0] is Symbol,
        form_of(items[0]->Symbol_0) == Form::Call,
        lookup(e, items[0]->Symbol_0) matches Some(Val::Function(_, _)),
    ensures
        eval_spec(ar, ord, fuel, Val::List(items), e).1 == eval_args(
            ar,
            ord,
            (fuel - 1) as nat,
            items,
            1,
            seq![],
            e,
        ).1,
{
    let f = (fuel - 1) as nat;
    let s = items[0]->Symbol_0;
    if let Some(Val::Function(params, body)) = lookup(e, s) {
        lemma_args_only_current_frame(ar, ord, f, items, 1, seq![], e);
        let (a, e1) = eval_args(ar, ord, f, items, 1, seq![], e);
        if a is Ok && a->Ok_0.len() >= params.len() {
            let args = a->Ok_0;
            let inner = e1.push(call_frame(params, args, params.len() as int));
            lemma_only_current_frame(ar, ord, f, Val::List(body), inner);
            assert(inner.drop_last() =~= e1);
        }
    }
}

/// Evaluating a symbol that no frame binds fails with `UnboundSymbol`,
/// naming it, and changes nothing.
pub proof fn lemma_unbound_symbol(ar: ArithFn, ord: OrderFn, fuel: nat, s: Seq<char>, e: EnvModel)
    requires
        fuel >= 1,
        lookup(e, s) is None,
    ensures
        eval_spec(ar, ord, fuel, Val::Symbol(s), e) == (Err::<Val, Failure>(Failure::UnboundSymbol(s)), e),
{
}

/// A conditional whose condition evaluates to something other than a
/// boolean fails with `TypeMismatch`, and neither branch is evaluated: the
/// environment is the one the condition left.
pub proof fn lemma_if_needs_boolean(ar: ArithFn, ord: OrderFn, fuel: nat, items: Seq<Val>, e: EnvModel)
    requires
        fuel >= 1,
        items.len() == 4,
        items[0] is Symbol,
        form_of(items[0]->Symbol_0) == Form::If,
        eval_spec(ar, ord, (fuel - 1) as nat, items[1], e).0 matches Ok(c) && !(c is Bool),
    ensures
        eval_spec(ar, ord, fuel, Val::List(items), e).0 == Err::<Val, Failure>(
            Failure::TypeMismatch(items[0]->Symbol_0),
        ),
        eval_spec(ar, ord, fuel, Val::List(items), e).1 == eval_spec(
            ar,
            ord,
            (fuel - 1) as nat,
            items[1],
            e,
        ).1,
{
}

/// Division of two numbers is never an error: it gives whatever the number
/// arithmetic gives (for floats, an infinity or NaN on a zero divisor).
pub proof fn lemma_division_total(ar: ArithFn, ord: OrderFn, fuel: nat, a: u64, b: u64, e: EnvModel)
    requires
        fuel >= 2,
    ensures
        eval_spec(
            ar,
            ord,
            fuel,
            Val::List(seq![Val::Symbol(seq!['/']), Val::Number(a), Val::Number(b)]),
            e,
        ) == (Ok::<Val, Failure>(Val::Number(ar(BinOp::Div, a, b))), e),
{
    let items = seq![Val::Symbol(seq!['/']), Val::Number(a), Val::Number(b)];
    assert(items[0]->Symbol_0 == seq!['/']);
    let d = seq!['/'];
    assert(d[0] != seq!['+'][0]);
    assert(d[0] != seq!['-'][0]);
    assert(d[0] != seq!['*'][0]);
    assert(form_of(d) == Form::Op(BinOp::Div));
    assert(items[1] == Val::Number(a) && items[2] == Val::Number(b));
    assert(eval_spec(ar, ord, (fuel - 1) as nat, Val::Number(a), e) == (Ok::<Val, Failure>(Val::Number(a)), e));
    assert(eval_spec(ar, ord, (fuel - 1) as nat, Val::Number(b), e) == (Ok::<Val, Failure>(Val::Number(b)), e));
    assert(apply_op(ar, ord, BinOp::Div, a, b) == Val::Number(ar(BinOp::Div, a, b)));
}

} // verus!
