//! Marshalling capabilities: per-native-type conversion to and from
//! wire values.
//!
//! Every participating native type declares, as a pure function of the
//! type alone, the wire type it marshals to; a whole call's expected
//! signature can therefore be computed before any value is produced.
//! Composition is structural: a sequence or mapping of `T` has the
//! capability exactly when `T` has it, so arbitrary nesting needs no
//! new code per shape.  Reading back as the wrong type is a recoverable
//! failure, never a panic.

use vstd::prelude::*;

use crate::signature::Signature;
use crate::signature::Ty;
use crate::signature::TyView;
use crate::signature::is_basic_ty;
use crate::signature::tys_view;
use crate::value::Value;
use crate::value::ValueView;
use crate::value::bytes_clone;
use crate::value::lemma_pairs_view_elts;
use crate::value::lemma_tys_view_elts;
use crate::value::lemma_types_of_elts;
use crate::value::lemma_vals_view_elts;
use crate::value::lemma_wf_pairs_elts;
use crate::value::lemma_wf_vals_elts;
use crate::value::pairs_view;
use crate::value::ty_clone;
use crate::value::ty_eq;
use crate::value::tys_clone;
use crate::value::type_of;
use crate::value::types_of;
use crate::value::vals_view;
use crate::value::value_view;
use crate::value::wf_pairs;
use crate::value::wf_vals;
use crate::value::wf_value;

verus! {

/// The conversion capability.  `val_spec` pins the exact wire value a
/// native value marshals to; `from_value` inverts it: it succeeds on
/// precisely the wire values some native value marshals to, and then
/// returns that value.  Together the two contracts are the round-trip
/// law: reading back a written value yields an equal value.
pub trait Arg: Sized {
    /// The wire type every value of this native type marshals to.
    spec fn ty_spec() -> TyView;

    /// The wire value this native value marshals to.
    spec fn val_spec(&self) -> ValueView;

    /// Which native values marshal to well-formed wire values (all of
    /// them, for every capability except a hand-built variant whose
    /// payload the caller assembled directly).
    spec fn arg_wf(&self) -> bool;

    /// A marshalled value is well formed and carries the declared type.
    proof fn lemma_val_wf(&self)
        requires
            self.arg_wf(),
        ensures
            wf_value(self.val_spec()),
            type_of(self.val_spec()) == Self::ty_spec(),
    ;

    /// The wire type, as a runtime value.
    fn ty() -> (t: Ty)
        ensures
            t@ == Self::ty_spec(),
    ;

    /// Marshal this value.
    fn to_value(&self) -> (v: Value)
        ensures
            v@ == self.val_spec(),
    ;

    /// Unmarshal a value of exactly this type; any other wire value is
    /// rejected.
    fn from_value(v: &Value) -> (r: Option<Self>)
        ensures
            (match r {
                Some(x) => x.val_spec() == v@,
                None => forall|x: Self| x.val_spec() != v@,
            }),
    ;
}

/// The capability restricted to the basic kinds, which alone may key a
/// dict entry.
pub trait BasicArg: Arg {
    /// The declared wire type is a basic kind.
    proof fn lemma_basic()
        ensures
            is_basic_ty(Self::ty_spec()),
    ;
}

/// Round trip: marshalling any native value and unmarshalling it at
/// the same type succeeds and yields an equal value.
pub fn round_trip<T: Arg>(x: &T) -> (r: Option<T>)
    ensures
        r is Some,
        r.unwrap().val_spec() == x.val_spec(),
{
    let v = x.to_value();
    T::from_value(&v)
}

impl Arg for u8 {
    open spec fn ty_spec() -> TyView {
        TyView::Byte
    }

    open spec fn val_spec(&self) -> ValueView {
        ValueView::Byte(*self)
    }

    open spec fn arg_wf(&self) -> bool {
        true
    }

    proof fn lemma_val_wf(&self) {
    }

    fn ty() -> (t: Ty) {
        Ty::Byte
    }

    fn to_value(&self) -> (v: Value) {
        Value::Byte(*self)
    }

    fn from_value(v: &Value) -> (r: Option<u8>) {
        match v {
            Value::Byte(x) => Some(*x),
            _ => None,
        }
    }
}

impl BasicArg for u8 {
    proof fn lemma_basic() {
    }
}

impl Arg for bool {
    open spec fn ty_spec() -> TyView {
        TyView::Bool
    }

    open spec fn val_spec(&self) -> ValueView {
        ValueView::Bool(*self)
    }

    open spec fn arg_wf(&self) -> bool {
        true
    }

    proof fn lemma_val_wf(&self) {
    }

    fn ty() -> (t: Ty) {
        Ty::Bool
    }

    fn to_value(&self) -> (v: Value) {
        Value::Bool(*self)
    }

    fn from_value(v: &Value) -> (r: Option<bool>) {
        match v {
            Value::Bool(x) => Some(*x),
            _ => None,
        }
    }
}

impl BasicArg for bool {
    proof fn lemma_basic() {
    }
}

impl Arg for i16 {
    open spec fn ty_spec() -> TyView {
        TyView::Int16
    }

    open spec fn val_spec(&self) -> ValueView {
        ValueView::Int16(*self)
    }

    open spec fn arg_wf(&self) -> bool {
        true
    }

    proof fn lemma_val_wf(&self) {
    }

    fn ty() -> (t: Ty) {
        Ty::Int16
    }

    fn to_value(&self) -> (v: Value) {
        Value::Int16(*self)
    }

    fn from_value(v: &Value) -> (r: Option<i16>) {
        match v {
            Value::Int16(x) => Some(*x),
            _ => None,
        }
    }
}

impl BasicArg for i16 {
    proof fn lemma_basic() {
    }
}

impl Arg for u16 {
    open spec fn ty_spec() -> TyView {
        TyView::UInt16
    }

    open spec fn val_spec(&self) -> ValueView {
        ValueView::UInt16(*self)
    }

    open spec fn arg_wf(&self) -> bool {
        true
    }

    proof fn lemma_val_wf(&self) {
    }

    fn ty() -> (t: Ty) {
        Ty::UInt16
    }

    fn to_value(&self) -> (v: Value) {
        Value::UInt16(*self)
    }

    fn from_value(v: &Value) -> (r: Option<u16>) {
        match v {
            Value::UInt16(x) => Some(*x),
            _ => None,
        }
    }
}

impl BasicArg for u16 {
    proof fn lemma_basic() {
    }
}

impl Arg for i32 {
    open spec fn ty_spec() -> TyView {
        TyView::Int32
    }

    open spec fn val_spec(&self) -> ValueView {
        ValueView::Int32(*self)
    }

    open spec fn arg_wf(&self) -> bool {
        true
    }

    proof fn lemma_val_wf(&self) {
    }

    fn ty() -> (t: Ty) {
        Ty::Int32
    }

    fn to_value(&self) -> (v: Value) {
        Value::Int32(*self)
    }

    fn from_value(v: &Value) -> (r: Option<i32>) {
        match v {
            Value::Int32(x) => Some(*x),
            _ => None,
        }
    }
}

impl BasicArg for i32 {
    proof fn lemma_basic() {
    }
}

impl Arg for u32 {
    open spec fn ty_spec() -> TyView {
        TyView::UInt32
    }

    open spec fn val_spec(&self) -> ValueView {
        ValueView::UInt32(*self)
    }

    open spec fn arg_wf(&self) -> bool {
        true
    }

    proof fn lemma_val_wf(&self) {
    }

    fn ty() -> (t: Ty) {
        Ty::UInt32
    }

    fn to_value(&self) -> (v: Value) {
        Value::UInt32(*self)
    }

    fn from_value(v: &Value) -> (r: Option<u32>) {
        match v {
            Value::UInt32(x) => Some(*x),
            _ => None,
        }
    }
}

impl BasicArg for u32 {
    proof fn lemma_basic() {
    }
}

impl Arg for i64 {
    open spec fn ty_spec() -> TyView {
        TyView::Int64
    }

    open spec fn val_spec(&self) -> ValueView {
        ValueView::Int64(*self)
    }

    open spec fn arg_wf(&self) -> bool {
        true
    }

    proof fn lemma_val_wf(&self) {
    }

    fn ty() -> (t: Ty) {
        Ty::Int64
    }

    fn to_value(&self) -> (v: Value) {
        Value::Int64(*self)
    }

    fn from_value(v: &Value) -> (r: Option<i64>) {
        match v {
            Value::Int64(x) => Some(*x),
            _ => None,
        }
    }
}

impl BasicArg for i64 {
    proof fn lemma_basic() {
    }
}

impl Arg for u64 {
    open spec fn ty_spec() -> TyView {
        TyView::UInt64
    }

    open spec fn val_spec(&self) -> ValueView {
        ValueView::UInt64(*self)
    }

    open spec fn arg_wf(&self) -> bool {
        true
    }

    proof fn lemma_val_wf(&self) {
    }

    fn ty() -> (t: Ty) {
        Ty::UInt64
    }

    fn to_value(&self) -> (v: Value) {
        Value::UInt64(*self)
    }

    fn from_value(v: &Value) -> (r: Option<u64>) {
        match v {
            Value::UInt64(x) => Some(*x),
            _ => None,
        }
    }
}

impl BasicArg for u64 {
    proof fn lemma_basic() {
    }
}

/// A double-precision value, carried as its raw IEEE-754 bit pattern;
/// this layer never interprets the bits arithmetically.
#[derive(Clone, Copy, Debug, PartialEq, Eq, Structural)]
pub struct DoubleBits {
    pub bits: u64,
}

impl Arg for DoubleBits {
    open spec fn ty_spec() -> TyView {
        TyView::Double
    }

    open spec fn val_spec(&self) -> ValueView {
        ValueView::Double(self.bits)
    }

    open spec fn arg_wf(&self) -> bool {
        true
    }

    proof fn lemma_val_wf(&self) {
    }

    fn ty() -> (t: Ty) {
        Ty::Double
    }

    fn to_value(&self) -> (v: Value) {
        Value::Double(self.bits)
    }

    fn from_value(v: &Value) -> (r: Option<DoubleBits>) {
        match v {
            Value::Double(x) => Some(DoubleBits { bits: *x }),
            _ => None,
        }
    }
}

impl BasicArg for DoubleBits {
    proof fn lemma_basic() {
    }
}

/// A native bus string, kept as bytes.
#[derive(Debug, PartialEq, Eq)]
pub struct BusString {
    pub bytes: Vec<u8>,
}

impl Arg for BusString {
    open spec fn ty_spec() -> TyView {
        TyView::Str
    }

    open spec fn val_spec(&self) -> ValueView {
        ValueView::Str(self.bytes@)
    }

    open spec fn arg_wf(&self) -> bool {
        true
    }

    proof fn lemma_val_wf(&self) {
    }

    fn ty() -> (t: Ty) {
        Ty::Str
    }

    fn to_value(&self) -> (v: Value) {
        Value::Str(bytes_clone(&self.bytes))
    }

    fn from_value(v: &Value) -> (r: Option<BusString>) {
        match v {
            Value::Str(b) => Some(BusString { bytes: bytes_clone(b) }),
            _ => None,
        }
    }
}

impl BasicArg for BusString {
    proof fn lemma_basic() {
    }
}

/// A native object path, kept as bytes.
#[derive(Debug, PartialEq, Eq)]
pub struct ObjPath {
    pub bytes: Vec<u8>,
}

impl Arg for ObjPath {
    open spec fn ty_spec() -> TyView {
        TyView::ObjectPath
    }

    open spec fn val_spec(&self) -> ValueView {
        ValueView::ObjectPath(self.bytes@)
    }

    open spec fn arg_wf(&self) -> bool {
        true
    }

    proof fn lemma_val_wf(&self) {
    }

    fn ty() -> (t: Ty) {
        Ty::ObjectPath
    }

    fn to_value(&self) -> (v: Value) {
        Value::ObjectPath(bytes_clone(&self.bytes))
    }

    fn from_value(v: &Value) -> (r: Option<ObjPath>) {
        match v {
            Value::ObjectPath(b) => Some(ObjPath { bytes: bytes_clone(b) }),
            _ => None,
        }
    }
}

impl BasicArg for ObjPath {
    proof fn lemma_basic() {
    }
}

impl Arg for Signature {
    open spec fn ty_spec() -> TyView {
        TyView::Sig
    }

    open spec fn val_spec(&self) -> ValueView {
        ValueView::Sig(self@)
    }

    open spec fn arg_wf(&self) -> bool {
        true
    }

    proof fn lemma_val_wf(&self) {
    }

    fn ty() -> (t: Ty) {
        Ty::Sig
    }

    fn to_value(&self) -> (v: Value) {
        Value::Sig(Signature { elems: tys_clone(&self.elems) })
    }

    fn from_value(v: &Value) -> (r: Option<Signature>) {
        match v {
            Value::Sig(s) => Some(Signature { elems: tys_clone(&s.elems) }),
            _ => None,
        }
    }
}

impl BasicArg for Signature {
    proof fn lemma_basic() {
    }
}

/// A value wrapped as a variant: the marshalled form stores the
/// payload together with its own type, so the receiver can recover
/// both.
#[derive(Debug, PartialEq, Eq)]
pub struct VariantVal {
    pub inner: Value,
}

impl Arg for VariantVal {
    open spec fn ty_spec() -> TyView {
        TyView::Variant
    }

    open spec fn val_spec(&self) -> ValueView {
        ValueView::Variant(Box::new(self.inner@))
    }

    open spec fn arg_wf(&self) -> bool {
        wf_value(self.inner@)
    }

    proof fn lemma_val_wf(&self) {
    }

    fn ty() -> (t: Ty) {
        Ty::Variant
    }

    fn to_value(&self) -> (v: Value) {
        Value::Variant(Box::new(self.inner.deep_clone()))
    }

    fn from_value(v: &Value) -> (r: Option<VariantVal>) {
        match v {
            Value::Variant(b) => Some(VariantVal { inner: b.deep_clone() }),
            _ => None,
        }
    }
}

/// Variant fidelity: a variant-wrapped payload marshals to a variant
/// value, which no plain (unwrapped) capability accepts; unwrapping it
/// hands back the payload with its own type, and hence its exact
/// signature, intact.
pub proof fn lemma_variant_opaque(x: VariantVal, n: i32)
    ensures
        x.val_spec() == ValueView::Variant(Box::new(x.inner@)),
        type_of(x.val_spec()) == TyView::Variant,
        n.val_spec() != x.val_spec(),
{
}

/// The marshalled elements of a native sequence.
pub open spec fn args_vals<T: Arg>(s: Seq<T>) -> Seq<ValueView>
    decreases s,
{
    if s.len() == 0 {
        Seq::empty()
    } else {
        seq![s[0].val_spec()] + args_vals(s.subrange(1, s.len() as int))
    }
}

pub proof fn lemma_args_vals_elts<T: Arg>(s: Seq<T>)
    ensures
        args_vals(s).len() == s.len(),
        forall|i: int| 0 <= i < s.len() ==> args_vals(s)[i] == s[i].val_spec(),
    decreases s,
{
    if s.len() != 0 {
        lemma_args_vals_elts(s.subrange(1, s.len() as int));
    }
}

impl<T: Arg> Arg for Vec<T> {
    open spec fn ty_spec() -> TyView {
        TyView::Array(Box::new(T::ty_spec()))
    }

    open spec fn val_spec(&self) -> ValueView {
        ValueView::Array(T::ty_spec(), args_vals(self@))
    }

    open spec fn arg_wf(&self) -> bool {
        forall|i: int| 0 <= i < self@.len() ==> (#[trigger] self@[i]).arg_wf()
    }

    proof fn lemma_val_wf(&self) {
        lemma_args_vals_elts::<T>(self@);
        assert forall|i: int| 0 <= i < args_vals(self@).len() implies wf_value(
            #[trigger] args_vals(self@)[i],
        ) && type_of(args_vals(self@)[i]) == T::ty_spec() by {
            self@[i].lemma_val_wf();
        }
        lemma_wf_vals_elts(args_vals(self@));
    }

    fn ty() -> (t: Ty) {
        Ty::Array(Box::new(T::ty()))
    }

    fn to_value(&self) -> (v: Value) {
        let mut es: Vec<Value> = Vec::new();
        let mut k: usize = 0;
        while k < self.len()
            invariant
                0 <= k <= self@.len(),
                es@.len() == k,
                forall|m: int|
                    0 <= m < k ==> value_view(#[trigger] es@[m]) == self@[m].val_spec(),
            decreases self@.len() - k,
        {
            let e = self[k].to_value();
            es.push(e);
            k = k + 1;
        }
        proof {
            lemma_vals_view_elts(es@);
            lemma_args_vals_elts::<T>(self@);
            assert(vals_view(es@) =~= args_vals(self@));
        }
        Value::Array(T::ty(), es)
    }

    fn from_value(v: &Value) -> (r: Option<Vec<T>>) {
        match v {
            Value::Array(t, es) => {
                let expected = T::ty();
                if !ty_eq(t, &expected) {
                    proof {
                        assert forall|x: Vec<T>| x.val_spec() != v@ by {}
                    }
                    return None;
                }
                let ghost evs = vals_view(es@);
                proof {
                    lemma_vals_view_elts(es@);
                    assert(v@ == ValueView::Array(T::ty_spec(), evs));
                }
                let mut out: Vec<T> = Vec::new();
                let mut k: usize = 0;
                while k < es.len()
                    invariant
                        0 <= k <= es@.len(),
                        out@.len() == k,
                        evs == vals_view(es@),
                        v@ == ValueView::Array(T::ty_spec(), evs),
                        evs.len() == es@.len(),
                        forall|m: int| 0 <= m < es@.len() ==> evs[m] == value_view(es@[m]),
                        forall|m: int| 0 <= m < k ==> (#[trigger] out@[m]).val_spec() == evs[m],
                    decreases es@.len() - k,
                {
                    match T::from_value(&es[k]) {
                        Some(x) => {
                            out.push(x);
                        },
                        None => {
                            proof {
                                assert forall|x: Vec<T>| x.val_spec() != v@ by {
                                    if x.val_spec() == v@ {
                                        lemma_args_vals_elts::<T>(x@);
                                        assert(x.val_spec() == ValueView::Array(
                                            T::ty_spec(),
                                            args_vals(x@),
                                        ));
                                        assert(args_vals(x@) == evs);
                                        assert(x@[k as int].val_spec() == evs[k as int]);
                                        assert(false);
                                    }
                                }
                            }
                            return None;
                        },
                    }
                    k = k + 1;
                }
                proof {
                    lemma_args_vals_elts::<T>(out@);
                    assert(args_vals(out@) =~= evs);
                }
                Some(out)
            },
            _ => {
                proof {
                    assert forall|x: Vec<T>| x.val_spec() != v@ by {}
                }
                None
            },
        }
    }
}

/// The marshalled entries of a native mapping.
pub open spec fn args_pairs<K: Arg, V: Arg>(s: Seq<(K, V)>) -> Seq<(ValueView, ValueView)>
    decreases s,
{
    if s.len() == 0 {
        Seq::empty()
    } else {
        seq![(s[0].0.val_spec(), s[0].1.val_spec())] + args_pairs(s.subrange(1, s.len() as int))
    }
}

pub proof fn lemma_args_pairs_elts<K: Arg, V: Arg>(s: Seq<(K, V)>)
    ensures
        args_pairs(s).len() == s.len(),
        forall|i: int|
            0 <= i < s.len() ==> args_pairs(s)[i] == (s[i].0.val_spec(), s[i].1.val_spec()),
    decreases s,
{
    if s.len() != 0 {
        lemma_args_pairs_elts(s.subrange(1, s.len() as int));
    }
}

/// A native mapping, marshalled as an array of dict entries.  Entry
/// order is preserved; key uniqueness is not enforced at this layer.
#[derive(Debug, PartialEq, Eq)]
pub struct DictMap<K, V> {
    pub entries: Vec<(K, V)>,
}

impl<K: BasicArg, V: Arg> Arg for DictMap<K, V> {
    open spec fn ty_spec() -> TyView {
        TyView::Array(
            Box::new(TyView::DictEntry(Box::new(K::ty_spec()), Box::new(V::ty_spec()))),
        )
    }

    open spec fn val_spec(&self) -> ValueView {
        ValueView::Dict(K::ty_spec(), V::ty_spec(), args_pairs(self.entries@))
    }

    open spec fn arg_wf(&self) -> bool {
        forall|i: int|
            0 <= i < self.entries@.len() ==> (#[trigger] self.entries@[i]).0.arg_wf()
                && self.entries@[i].1.arg_wf()
    }

    proof fn lemma_val_wf(&self) {
        K::lemma_basic();
        lemma_args_pairs_elts::<K, V>(self.entries@);
        assert forall|i: int| 0 <= i < args_pairs(self.entries@).len() implies wf_value(
            #[trigger] args_pairs(self.entries@)[i].0,
        ) && wf_value(args_pairs(self.entries@)[i].1) && type_of(args_pairs(self.entries@)[i].0)
            == K::ty_spec() && type_of(args_pairs(self.entries@)[i].1) == V::ty_spec() by {
            self.entries@[i].0.lemma_val_wf();
            self.entries@[i].1.lemma_val_wf();
        }
        lemma_wf_pairs_elts(args_pairs(self.entries@));
    }

    fn ty() -> (t: Ty) {
        let entry = Ty::DictEntry(Box::new(K::ty()), Box::new(V::ty()));
        let ghost ev = crate::signature::ty_view(entry);
        let t = Ty::Array(Box::new(entry));
        proof {
            assert(ev == TyView::DictEntry(Box::new(K::ty_spec()), Box::new(V::ty_spec())));
            assert(t@ == TyView::Array(Box::new(ev)));
        }
        t
    }

    fn to_value(&self) -> (v: Value) {
        let mut ps: Vec<(Value, Value)> = Vec::new();
        let mut k: usize = 0;
        while k < self.entries.len()
            invariant
                0 <= k <= self.entries@.len(),
                ps@.len() == k,
                forall|m: int|
                    0 <= m < k ==> value_view(#[trigger] ps@[m].0) == self.entries@[m].0.val_spec()
                        && value_view(ps@[m].1) == self.entries@[m].1.val_spec(),
            decreases self.entries@.len() - k,
        {
            let kv = self.entries[k].0.to_value();
            let vv = self.entries[k].1.to_value();
            ps.push((kv, vv));
            k = k + 1;
        }
        proof {
            lemma_pairs_view_elts(ps@);
            lemma_args_pairs_elts::<K, V>(self.entries@);
            assert(pairs_view(ps@) =~= args_pairs(self.entries@));
        }
        Value::Dict(K::ty(), V::ty(), ps)
    }

    fn from_value(v: &Value) -> (r: Option<DictMap<K, V>>) {
        match v {
            Value::Dict(kt, vt, ps) => {
                let ek = K::ty();
                let ev = V::ty();
                if !ty_eq(kt, &ek) || !ty_eq(vt, &ev) {
                    proof {
                        assert forall|x: DictMap<K, V>| x.val_spec() != v@ by {}
                    }
                    return None;
                }
                let ghost pvs = pairs_view(ps@);
                proof {
                    lemma_pairs_view_elts(ps@);
                    assert(v@ == ValueView::Dict(K::ty_spec(), V::ty_spec(), pvs));
                }
                let mut out: Vec<(K, V)> = Vec::new();
                let mut k: usize = 0;
                while k < ps.len()
                    invariant
                        0 <= k <= ps@.len(),
                        out@.len() == k,
                        pvs == pairs_view(ps@),
                        v@ == ValueView::Dict(K::ty_spec(), V::ty_spec(), pvs),
                        pvs.len() == ps@.len(),
                        forall|m: int|
                            0 <= m < ps@.len() ==> pvs[m] == (
                            value_view(ps@[m].0),
                            value_view(ps@[m].1),
                            ),
                        forall|m: int|
                            0 <= m < k ==> ((#[trigger] out@[m]).0.val_spec(), out@[m].1.val_spec())
                                == pvs[m],
                    decreases ps@.len() - k,
                {
                    let ko = K::from_value(&ps[k].0);
                    let vo = V::from_value(&ps[k].1);
                    match (ko, vo) {
                        (Some(x), Some(y)) => {
                            out.push((x, y));
                        },
                        _ => {
                            proof {
                                assert forall|x: DictMap<K, V>| x.val_spec() != v@ by {
                                    if x.val_spec() == v@ {
                                        lemma_args_pairs_elts::<K, V>(x.entries@);
                                        assert(x.val_spec() == ValueView::Dict(
                                            K::ty_spec(),
                                            V::ty_spec(),
                                            args_pairs(x.entries@),
                                        ));
                                        assert(args_pairs(x.entries@) == pvs);
                                        assert((
                                        x.entries@[k as int].0.val_spec(),
                                        x.entries@[k as int].1.val_spec(),
                                        ) == pvs[k as int]);
                                        assert(false);
                                    }
                                }
                            }
                            return None;
                        },
                    }
                    k = k + 1;
                }
                proof {
                    lemma_args_pairs_elts::<K, V>(out@);
                    assert(args_pairs(out@) =~= pvs);
                }
                Some(DictMap { entries: out })
            },
            _ => {
                proof {
                    assert forall|x: DictMap<K, V>| x.val_spec() != v@ by {}
                }
                None
            },
        }
    }
}

impl<A: Arg, B: Arg> Arg for (A, B) {
    open spec fn ty_spec() -> TyView {
        TyView::Struct(seq![A::ty_spec(), B::ty_spec()])
    }

    open spec fn val_spec(&self) -> ValueView {
        ValueView::Struct(seq![self.0.val_spec(), self.1.val_spec()])
    }

    open spec fn arg_wf(&self) -> bool {
        self.0.arg_wf() && self.1.arg_wf()
    }

    proof fn lemma_val_wf(&self) {
        self.0.lemma_val_wf();
        self.1.lemma_val_wf();
        let es = seq![self.0.val_spec(), self.1.val_spec()];
        lemma_wf_vals_elts(es);
        assert forall|i: int| 0 <= i < es.len() implies wf_value(#[trigger] es[i]) by {
            if i == 0 {
                assert(es[0] == self.0.val_spec());
            } else {
                assert(es[1] == self.1.val_spec());
            }
        }
        assert(wf_vals(es));
        lemma_types_of_elts(es);
        assert(types_of(es) =~= seq![A::ty_spec(), B::ty_spec()]);
    }

    fn ty() -> (t: Ty) {
        let mut fs: Vec<Ty> = Vec::new();
        fs.push(A::ty());
        fs.push(B::ty());
        proof {
            lemma_tys_view_elts(fs@);
            assert(tys_view(fs@) =~= seq![A::ty_spec(), B::ty_spec()]);
        }
        Ty::Struct(fs)
    }

    fn to_value(&self) -> (v: Value) {
        let mut es: Vec<Value> = Vec::new();
        es.push(self.0.to_value());
        es.push(self.1.to_value());
        proof {
            lemma_vals_view_elts(es@);
            assert(vals_view(es@) =~= seq![self.0.val_spec(), self.1.val_spec()]);
        }
        Value::Struct(es)
    }

    fn from_value(v: &Value) -> (r: Option<(A, B)>) {
        match v {
            Value::Struct(es) => {
                proof {
                    lemma_vals_view_elts(es@);
                }
                if es.len() != 2 {
                    proof {
                        assert forall|x: (A, B)| x.val_spec() != v@ by {}
                    }
                    return None;
                }
                let a = A::from_value(&es[0]);
                let b = B::from_value(&es[1]);
                match (a, b) {
                    (Some(x), Some(y)) => {
                        proof {
                            assert(vals_view(es@) =~= seq![x.val_spec(), y.val_spec()]);
                        }
                        Some((x, y))
                    },
                    _ => {
                        proof {
                            assert forall|x: (A, B)| x.val_spec() != v@ by {
                                if x.val_spec() == v@ {
                                    assert(seq![x.0.val_spec(), x.1.val_spec()] == vals_view(es@));
                                    assert(x.0.val_spec() == vals_view(es@)[0]);
                                    assert(x.1.val_spec() == vals_view(es@)[1]);
                                    assert(false);
                                }
                            }
                        }
                        None
                    },
                }
            },
            _ => {
                proof {
                    assert forall|x: (A, B)| x.val_spec() != v@ by {}
                }
                None
            },
        }
    }
}

} // verus!
