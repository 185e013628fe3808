//! Wire values: a tagged union covering every type the signature
//! grammar can describe.
//!
//! A `Value` owns its nested values outright; the type system of the
//! signature layer forbids cycles.  A variant holds one inner value,
//! whose concrete type (and hence signature) is always derivable, so
//! nested type information survives a round trip through an untyped
//! container.  Dict keys must be of a basic kind; key uniqueness is not
//! enforced at this layer (last-write-wins is left to the consumer).

use vstd::prelude::*;

use crate::signature::Signature;
use crate::signature::Ty;
use crate::signature::TyView;
use crate::signature::is_basic_ty;
use crate::signature::ty_view;
use crate::signature::tys_view;

verus! {

/// One wire value.  A double is carried as its raw IEEE-754 bit
/// pattern, which this layer never interprets arithmetically.
#[derive(Debug, PartialEq, Eq)]
pub enum Value {
    Byte(u8),
    Bool(bool),
    Int16(i16),
    UInt16(u16),
    Int32(i32),
    UInt32(u32),
    Int64(i64),
    UInt64(u64),
    Double(u64),
    Str(Vec<u8>),
    ObjectPath(Vec<u8>),
    Sig(Signature),
    Array(Ty, Vec<Value>),
    Struct(Vec<Value>),
    Dict(Ty, Ty, Vec<(Value, Value)>),
    Variant(Box<Value>),
}

/// Mathematical model of a wire value.
#[verifier::ext_equal]
pub enum ValueView {
    Byte(u8),
    Bool(bool),
    Int16(i16),
    UInt16(u16),
    Int32(i32),
    UInt32(u32),
    Int64(i64),
    UInt64(u64),
    Double(u64),
    Str(Seq<u8>),
    ObjectPath(Seq<u8>),
    Sig(Seq<TyView>),
    Array(TyView, Seq<ValueView>),
    Struct(Seq<ValueView>),
    Dict(TyView, TyView, Seq<(ValueView, ValueView)>),
    Variant(Box<ValueView>),
}

pub open spec fn value_view(v: Value) -> ValueView
    decreases v,
{
    match v {
        Value::Byte(x) => ValueView::Byte(x),
        Value::Bool(x) => ValueView::Bool(x),
        Value::Int16(x) => ValueView::Int16(x),
        Value::UInt16(x) => ValueView::UInt16(x),
        Value::Int32(x) => ValueView::Int32(x),
        Value::UInt32(x) => ValueView::UInt32(x),
        Value::Int64(x) => ValueView::Int64(x),
        Value::UInt64(x) => ValueView::UInt64(x),
        Value::Double(x) => ValueView::Double(x),
        Value::Str(b) => ValueView::Str(b@),
        Value::ObjectPath(b) => ValueView::ObjectPath(b@),
        Value::Sig(s) => ValueView::Sig(s@),
        Value::Array(t, es) => ValueView::Array(ty_view(t), vals_view(es@)),
        Value::Struct(es) => ValueView::Struct(vals_view(es@)),
        Value::Dict(k, w, ps) => ValueView::Dict(ty_view(k), ty_view(w), pairs_view(ps@)),
        Value::Variant(b) => ValueView::Variant(Box::new(value_view(*b))),
    }
}

pub open spec fn vals_view(vs: Seq<Value>) -> Seq<ValueView>
    decreases vs,
{
    if vs.len() == 0 {
        Seq::empty()
    } else {
        seq![value_view(vs[0])] + vals_view(vs.subrange(1, vs.len() as int))
    }
}

pub open spec fn pairs_view(ps: Seq<(Value, Value)>) -> Seq<(ValueView, ValueView)>
    decreases ps,
{
    if ps.len() == 0 {
        Seq::empty()
    } else {
        seq![(value_view(ps[0].0), value_view(ps[0].1))] + pairs_view(
            ps.subrange(1, ps.len() as int),
        )
    }
}

impl View for Value {
    type V = ValueView;

    open spec fn view(&self) -> ValueView {
        value_view(*self)
    }
}

/// The unique wire type of a value.  An array and a dict carry their
/// element types explicitly, so empty containers are still fully typed.
pub open spec fn type_of(v: ValueView) -> TyView
    decreases v,
{
    match v {
        ValueView::Byte(_) => TyView::Byte,
        ValueView::Bool(_) => TyView::Bool,
        ValueView::Int16(_) => TyView::Int16,
        ValueView::UInt16(_) => TyView::UInt16,
        ValueView::Int32(_) => TyView::Int32,
        ValueView::UInt32(_) => TyView::UInt32,
        ValueView::Int64(_) => TyView::Int64,
        ValueView::UInt64(_) => TyView::UInt64,
        ValueView::Double(_) => TyView::Double,
        ValueView::Str(_) => TyView::Str,
        ValueView::ObjectPath(_) => TyView::ObjectPath,
        ValueView::Sig(_) => TyView::Sig,
        ValueView::Array(t, _) => TyView::Array(Box::new(t)),
        ValueView::Struct(es) => TyView::Struct(types_of(es)),
        ValueView::Dict(k, w, _) => TyView::Array(
            Box::new(TyView::DictEntry(Box::new(k), Box::new(w))),
        ),
        ValueView::Variant(_) => TyView::Variant,
    }
}

pub open spec fn types_of(vs: Seq<ValueView>) -> Seq<TyView>
    decreases vs,
{
    if vs.len() == 0 {
        Seq::empty()
    } else {
        seq![type_of(vs[0])] + types_of(vs.subrange(1, vs.len() as int))
    }
}

/// Well-formedness: every array element shares the declared element
/// type, dict keys are of the declared basic kind and dict values of
/// the declared value type, structs are non-empty, and all of that
/// holds recursively.
pub open spec fn wf_value(v: ValueView) -> bool
    decreases v,
{
    match v {
        ValueView::Array(t, es) => wf_vals(es) && (forall|k: int|
            0 <= k < es.len() ==> type_of(#[trigger] es[k]) == t),
        ValueView::Struct(es) => es.len() > 0 && wf_vals(es),
        ValueView::Dict(kt, vt, ps) => is_basic_ty(kt) && wf_pairs(ps) && (forall|k: int|
            0 <= k < ps.len() ==> type_of(#[trigger] ps[k].0) == kt && type_of(ps[k].1) == vt),
        ValueView::Variant(b) => wf_value(*b),
        _ => true,
    }
}

pub open spec fn wf_vals(vs: Seq<ValueView>) -> bool
    decreases vs,
{
    if vs.len() == 0 {
        true
    } else {
        wf_value(vs[0]) && wf_vals(vs.subrange(1, vs.len() as int))
    }
}

pub open spec fn wf_pairs(ps: Seq<(ValueView, ValueView)>) -> bool
    decreases ps,
{
    if ps.len() == 0 {
        true
    } else {
        wf_value(ps[0].0) && wf_value(ps[0].1) && wf_pairs(ps.subrange(1, ps.len() as int))
    }
}

pub proof fn lemma_vals_view_elts(vs: Seq<Value>)
    ensures
        vals_view(vs).len() == vs.len(),
        forall|i: int| 0 <= i < vs.len() ==> vals_view(vs)[i] == value_view(vs[i]),
    decreases vs,
{
    if vs.len() != 0 {
        lemma_vals_view_elts(vs.subrange(1, vs.len() as int));
    }
}

pub proof fn lemma_pairs_view_elts(ps: Seq<(Value, Value)>)
    ensures
        pairs_view(ps).len() == ps.len(),
        forall|i: int|
            0 <= i < ps.len() ==> pairs_view(ps)[i] == (
            value_view(ps[i].0),
            value_view(ps[i].1),
            ),
    decreases ps,
{
    if ps.len() != 0 {
        lemma_pairs_view_elts(ps.subrange(1, ps.len() as int));
    }
}

pub proof fn lemma_types_of_elts(vs: Seq<ValueView>)
    ensures
        types_of(vs).len() == vs.len(),
        forall|i: int| 0 <= i < vs.len() ==> types_of(vs)[i] == type_of(vs[i]),
    decreases vs,
{
    if vs.len() != 0 {
        lemma_types_of_elts(vs.subrange(1, vs.len() as int));
    }
}

pub proof fn lemma_wf_vals_elts(vs: Seq<ValueView>)
    ensures
        wf_vals(vs) <==> (forall|i: int| 0 <= i < vs.len() ==> wf_value(#[trigger] vs[i])),
    decreases vs,
{
    if vs.len() != 0 {
        lemma_wf_vals_elts(vs.subrange(1, vs.len() as int));
        assert forall|i: int| 0 <= i < vs.len() && wf_vals(vs) implies wf_value(
            #[trigger] vs[i],
        ) by {
            if i > 0 {
                assert(vs.subrange(1, vs.len() as int)[i - 1] == vs[i]);
            }
        }
        if forall|i: int| 0 <= i < vs.len() ==> wf_value(#[trigger] vs[i]) {
            assert forall|i: int|
                0 <= i < vs.subrange(1, vs.len() as int).len() implies wf_value(
                #[trigger] vs.subrange(1, vs.len() as int)[i],
            ) by {
                assert(vs.subrange(1, vs.len() as int)[i] == vs[i + 1]);
            }
        }
    }
}

pub proof fn lemma_wf_pairs_elts(ps: Seq<(ValueView, ValueView)>)
    ensures
        wf_pairs(ps) <==> (forall|i: int|
            0 <= i < ps.len() ==> wf_value(#[trigger] ps[i].0) && wf_value(ps[i].1)),
    decreases ps,
{
    if ps.len() != 0 {
        lemma_wf_pairs_elts(ps.subrange(1, ps.len() as int));
        assert forall|i: int| 0 <= i < ps.len() && wf_pairs(ps) implies wf_value(
            #[trigger] ps[i].0,
        ) && wf_value(ps[i].1) by {
            if i > 0 {
                assert(ps.subrange(1, ps.len() as int)[i - 1] == ps[i]);
                assert(ps.subrange(1, ps.len() as int)[i - 1].0 == ps[i].0);
                assert(ps.subrange(1, ps.len() as int)[i - 1].1 == ps[i].1);
            }
        }
        if forall|i: int| 0 <= i < ps.len() ==> wf_value(#[trigger] ps[i].0) && wf_value(ps[i].1) {
            assert forall|i: int|
                0 <= i < ps.subrange(1, ps.len() as int).len() implies wf_value(
                #[trigger] ps.subrange(1, ps.len() as int)[i].0,
            ) && wf_value(ps.subrange(1, ps.len() as int)[i].1) by {
                assert(ps.subrange(1, ps.len() as int)[i] == ps[i + 1]);
                assert(wf_value(ps[i + 1].0) && wf_value(ps[i + 1].1));
                assert(ps.subrange(1, ps.len() as int)[i].0 == ps[i + 1].0);
                assert(ps.subrange(1, ps.len() as int)[i].1 == ps[i + 1].1);
            }
        }
    }
}

/// Structural equality of two types.
pub fn ty_eq(a: &Ty, b: &Ty) -> (r: bool)
    ensures
        r == (a@ == b@),
    decreases *a, 0int,
{
    match (a, b) {
        (Ty::Byte, Ty::Byte) => true,
        (Ty::Bool, Ty::Bool) => true,
        (Ty::Int16, Ty::Int16) => true,
        (Ty::UInt16, Ty::UInt16) => true,
        (Ty::Int32, Ty::Int32) => true,
        (Ty::UInt32, Ty::UInt32) => true,
        (Ty::Int64, Ty::Int64) => true,
        (Ty::UInt64, Ty::UInt64) => true,
        (Ty::Double, Ty::Double) => true,
        (Ty::Str, Ty::Str) => true,
        (Ty::ObjectPath, Ty::ObjectPath) => true,
        (Ty::Sig, Ty::Sig) => true,
        (Ty::Variant, Ty::Variant) => true,
        (Ty::Array(x), Ty::Array(y)) => ty_eq(x, y),
        (Ty::Struct(xs), Ty::Struct(ys)) => tys_eq(xs, ys),
        (Ty::DictEntry(k1, v1), Ty::DictEntry(k2, v2)) => ty_eq(k1, k2) && ty_eq(v1, v2),
        _ => false,
    }
}

fn tys_eq(xs: &Vec<Ty>, ys: &Vec<Ty>) -> (r: bool)
    ensures
        r == (tys_view(xs@) == tys_view(ys@)),
    decreases xs@, 1int,
{
    proof {
        crate::signature::lemma_tys_view_len(xs@);
        crate::signature::lemma_tys_view_len(ys@);
    }
    if xs.len() != ys.len() {
        return false;
    }
    let ghost xv = tys_view(xs@);
    let ghost yv = tys_view(ys@);
    let mut k: usize = 0;
    while k < xs.len()
        invariant
            0 <= k <= xs@.len(),
            xs@.len() == ys@.len(),
            xv == tys_view(xs@),
            yv == tys_view(ys@),
            xv.len() == xs@.len(),
            yv.len() == ys@.len(),
            forall|m: int| 0 <= m < k ==> xv[m] == yv[m],
        decreases xs@.len() - k,
    {
        proof {
            lemma_tys_view_elts(xs@);
            lemma_tys_view_elts(ys@);
        }
        if !ty_eq(&xs[k], &ys[k]) {
            proof {
                assert(xv[k as int] != yv[k as int]);
            }
            return false;
        }
        k = k + 1;
    }
    proof {
        lemma_tys_view_elts(xs@);
        lemma_tys_view_elts(ys@);
        assert(xv =~= yv);
    }
    true
}

pub proof fn lemma_tys_view_elts(ts: Seq<Ty>)
    ensures
        tys_view(ts).len() == ts.len(),
        forall|i: int| 0 <= i < ts.len() ==> tys_view(ts)[i] == ty_view(ts[i]),
    decreases ts,
{
    if ts.len() != 0 {
        lemma_tys_view_elts(ts.subrange(1, ts.len() as int));
    }
}

/// Deep copy of a type.
pub fn ty_clone(t: &Ty) -> (r: Ty)
    ensures
        r@ == t@,
    decreases *t, 0int,
{
    match t {
        Ty::Byte => Ty::Byte,
        Ty::Bool => Ty::Bool,
        Ty::Int16 => Ty::Int16,
        Ty::UInt16 => Ty::UInt16,
        Ty::Int32 => Ty::Int32,
        Ty::UInt32 => Ty::UInt32,
        Ty::Int64 => Ty::Int64,
        Ty::UInt64 => Ty::UInt64,
        Ty::Double => Ty::Double,
        Ty::Str => Ty::Str,
        Ty::ObjectPath => Ty::ObjectPath,
        Ty::Sig => Ty::Sig,
        Ty::Variant => Ty::Variant,
        Ty::Array(e) => Ty::Array(Box::new(ty_clone(e))),
        Ty::Struct(fs) => Ty::Struct(tys_clone(fs)),
        Ty::DictEntry(k, v) => Ty::DictEntry(Box::new(ty_clone(k)), Box::new(ty_clone(v))),
    }
}

pub fn tys_clone(ts: &Vec<Ty>) -> (r: Vec<Ty>)
    ensures
        tys_view(r@) == tys_view(ts@),
    decreases ts@, 1int,
{
    let mut r: Vec<Ty> = Vec::new();
    let mut k: usize = 0;
    while k < ts.len()
        invariant
            0 <= k <= ts@.len(),
            r@.len() == k,
            forall|m: int| 0 <= m < k ==> ty_view(#[trigger] r@[m]) == ty_view(ts@[m]),
        decreases ts@.len() - k,
    {
        let c = ty_clone(&ts[k]);
        r.push(c);
        k = k + 1;
    }
    proof {
        lemma_tys_view_elts(r@);
        lemma_tys_view_elts(ts@);
        assert(tys_view(r@) =~= tys_view(ts@));
    }
    r
}

/// Byte-string equality.
pub fn bytes_eq(a: &Vec<u8>, b: &Vec<u8>) -> (r: bool)
    ensures
        r == (a@ == b@),
{
    if a.len() != b.len() {
        return false;
    }
    let mut k: usize = 0;
    while k < a.len()
        invariant
            0 <= k <= a@.len(),
            a@.len() == b@.len(),
            forall|m: int| 0 <= m < k ==> a@[m] == b@[m],
        decreases a@.len() - k,
    {
        if a[k] != b[k] {
            return false;
        }
        k = k + 1;
    }
    proof {
        assert(a@ =~= b@);
    }
    true
}

/// Byte-string copy.
pub fn bytes_clone(a: &Vec<u8>) -> (r: Vec<u8>)
    ensures
        r@ == a@,
{
    let mut r: Vec<u8> = Vec::new();
    let mut k: usize = 0;
    while k < a.len()
        invariant
            0 <= k <= a@.len(),
            r@ == a@.subrange(0, k as int),
        decreases a@.len() - k,
    {
        r.push(a[k]);
        proof {
            assert(r@ =~= a@.subrange(0, k as int + 1));
        }
        k = k + 1;
    }
    proof {
        assert(a@.subrange(0, a@.len() as int) =~= a@);
    }
    r
}

impl Value {
    /// Deep copy of a value.
    pub fn deep_clone(&self) -> (r: Value)
        ensures
            r@ == self@,
        decreases *self, 0int,
    {
        match self {
            Value::Byte(x) => Value::Byte(*x),
            Value::Bool(x) => Value::Bool(*x),
            Value::Int16(x) => Value::Int16(*x),
            Value::UInt16(x) => Value::UInt16(*x),
            Value::Int32(x) => Value::Int32(*x),
            Value::UInt32(x) => Value::UInt32(*x),
            Value::Int64(x) => Value::Int64(*x),
            Value::UInt64(x) => Value::UInt64(*x),
            Value::Double(x) => Value::Double(*x),
            Value::Str(b) => Value::Str(bytes_clone(b)),
            Value::ObjectPath(b) => Value::ObjectPath(bytes_clone(b)),
            Value::Sig(s) => Value::Sig(Signature { elems: tys_clone(&s.elems) }),
            Value::Array(t, es) => Value::Array(ty_clone(t), vals_clone(es)),
            Value::Struct(es) => Value::Struct(vals_clone(es)),
            Value::Dict(k, w, ps) => Value::Dict(ty_clone(k), ty_clone(w), pairs_clone(ps)),
            Value::Variant(b) => Value::Variant(Box::new(b.deep_clone())),
        }
    }

    /// The wire type of this value.
    pub fn wire_type(&self) -> (r: Ty)
        ensures
            r@ == type_of(self@),
        decreases *self, 0int,
    {
        match self {
            Value::Byte(_) => Ty::Byte,
            Value::Bool(_) => Ty::Bool,
            Value::Int16(_) => Ty::Int16,
            Value::UInt16(_) => Ty::UInt16,
            Value::Int32(_) => Ty::Int32,
            Value::UInt32(_) => Ty::UInt32,
            Value::Int64(_) => Ty::Int64,
            Value::UInt64(_) => Ty::UInt64,
            Value::Double(_) => Ty::Double,
            Value::Str(_) => Ty::Str,
            Value::ObjectPath(_) => Ty::ObjectPath,
            Value::Sig(_) => Ty::Sig,
            Value::Variant(_) => Ty::Variant,
            Value::Array(t, _) => Ty::Array(Box::new(ty_clone(t))),
            Value::Dict(k, w, _) => {
                let entry = Ty::DictEntry(Box::new(ty_clone(k)), Box::new(ty_clone(w)));
                let ghost ev = ty_view(entry);
                let r = Ty::Array(Box::new(entry));
                proof {
                    assert(ev == TyView::DictEntry(
                        Box::new(ty_view(*k)),
                        Box::new(ty_view(*w)),
                    ));
                    assert(r@ == TyView::Array(Box::new(ev)));
                }
                r
            },
            Value::Struct(es) => Ty::Struct(wire_types(es)),
        }
    }
}

pub fn wire_types(vs: &Vec<Value>) -> (r: Vec<Ty>)
    ensures
        tys_view(r@) == types_of(vals_view(vs@)),
    decreases vs@, 1int,
{
    let mut r: Vec<Ty> = Vec::new();
    let mut k: usize = 0;
    while k < vs.len()
        invariant
            0 <= k <= vs@.len(),
            r@.len() == k,
            forall|m: int|
                0 <= m < k ==> ty_view(#[trigger] r@[m]) == type_of(value_view(vs@[m])),
        decreases vs@.len() - k,
    {
        let t = vs[k].wire_type();
        r.push(t);
        k = k + 1;
    }
    proof {
        lemma_tys_view_elts(r@);
        lemma_vals_view_elts(vs@);
        lemma_types_of_elts(vals_view(vs@));
        assert(tys_view(r@) =~= types_of(vals_view(vs@)));
    }
    r
}

fn vals_clone(vs: &Vec<Value>) -> (r: Vec<Value>)
    ensures
        vals_view(r@) == vals_view(vs@),
    decreases vs@, 1int,
{
    let mut r: Vec<Value> = Vec::new();
    let mut k: usize = 0;
    while k < vs.len()
        invariant
            0 <= k <= vs@.len(),
            r@.len() == k,
            forall|m: int| 0 <= m < k ==> value_view(#[trigger] r@[m]) == value_view(vs@[m]),
        decreases vs@.len() - k,
    {
        let c = vs[k].deep_clone();
        r.push(c);
        k = k + 1;
    }
    proof {
        lemma_vals_view_elts(r@);
        lemma_vals_view_elts(vs@);
        assert(vals_view(r@) =~= vals_view(vs@));
    }
    r
}

fn pairs_clone(ps: &Vec<(Value, Value)>) -> (r: Vec<(Value, Value)>)
    ensures
        pairs_view(r@) == pairs_view(ps@),
    decreases ps@, 1int,
{
    let mut r: Vec<(Value, Value)> = Vec::new();
    let mut k: usize = 0;
    while k < ps.len()
        invariant
            0 <= k <= ps@.len(),
            r@.len() == k,
            forall|m: int|
                0 <= m < k ==> value_view(#[trigger] r@[m].0) == value_view(ps@[m].0)
                    && value_view(r@[m].1) == value_view(ps@[m].1),
        decreases ps@.len() - k,
    {
        let c0 = ps[k].0.deep_clone();
        let c1 = ps[k].1.deep_clone();
        r.push((c0, c1));
        k = k + 1;
    }
    proof {
        lemma_pairs_view_elts(r@);
        lemma_pairs_view_elts(ps@);
        assert(pairs_view(r@) =~= pairs_view(ps@));
    }
    r
}

} // verus!
