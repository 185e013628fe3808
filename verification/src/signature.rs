//! The wire type-descriptor mini-language.
//!
//! A signature is an ordered sequence of single-character type codes:
//! atomic codes for the fixed-width and string-like kinds, and compound
//! codes for arrays (`a`), structs (`(...)`), dict entries (`{kv}`, only
//! as the sole element type of an array) and variants (`v`).  Parsing is
//! a single left-to-right recursive-descent pass; the protocol caps
//! container nesting at 32 and total signature length at 64 bytes.

use vstd::prelude::*;

verus! {

/// Container nesting ceiling mandated by the bus protocol.
pub const MAX_NESTING_DEPTH: u32 = 32;

/// Total signature length ceiling mandated by the bus protocol.
pub const MAX_SIGNATURE_LEN: usize = 64;

/// Type code `y` (byte).
pub const TC_BYTE: u8 = 121;

/// Type code `b` (boolean).
pub const TC_BOOL: u8 = 98;

/// Type code `n` (signed 16-bit).
pub const TC_INT16: u8 = 110;

/// Type code `q` (unsigned 16-bit).
pub const TC_UINT16: u8 = 113;

/// Type code `i` (signed 32-bit).
pub const TC_INT32: u8 = 105;

/// Type code `u` (unsigned 32-bit).
pub const TC_UINT32: u8 = 117;

/// Type code `x` (signed 64-bit).
pub const TC_INT64: u8 = 120;

/// Type code `t` (unsigned 64-bit).
pub const TC_UINT64: u8 = 116;

/// Type code `d` (double-precision, carried as its raw bit pattern).
pub const TC_DOUBLE: u8 = 100;

/// Type code `s` (string).
pub const TC_STRING: u8 = 115;

/// Type code `o` (object path).
pub const TC_OBJECT_PATH: u8 = 111;

/// Type code `g` (signature).
pub const TC_SIGNATURE: u8 = 103;

/// Type code `v` (variant).
pub const TC_VARIANT: u8 = 118;

/// Type code `a` (array).
pub const TC_ARRAY: u8 = 97;

/// Type code `(` (struct open).
pub const TC_STRUCT_OPEN: u8 = 40;

/// Type code `)` (struct close).
pub const TC_STRUCT_CLOSE: u8 = 41;

/// Type code `{` (dict entry open).
pub const TC_DICT_OPEN: u8 = 123;

/// Type code `}` (dict entry close).
pub const TC_DICT_CLOSE: u8 = 125;

/// One complete wire type.
#[derive(Debug, PartialEq, Eq)]
pub enum Ty {
    Byte,
    Bool,
    Int16,
    UInt16,
    Int32,
    UInt32,
    Int64,
    UInt64,
    Double,
    Str,
    ObjectPath,
    Sig,
    Variant,
    Array(Box<Ty>),
    Struct(Vec<Ty>),
    DictEntry(Box<Ty>, Box<Ty>),
}

/// Mathematical model of a wire type.
#[verifier::ext_equal]
pub enum TyView {
    Byte,
    Bool,
    Int16,
    UInt16,
    Int32,
    UInt32,
    Int64,
    UInt64,
    Double,
    Str,
    ObjectPath,
    Sig,
    Variant,
    Array(Box<TyView>),
    Struct(Seq<TyView>),
    DictEntry(Box<TyView>, Box<TyView>),
}

pub open spec fn ty_view(t: Ty) -> TyView
    decreases t,
{
    match t {
        Ty::Byte => TyView::Byte,
        Ty::Bool => TyView::Bool,
        Ty::Int16 => TyView::Int16,
        Ty::UInt16 => TyView::UInt16,
        Ty::Int32 => TyView::Int32,
        Ty::UInt32 => TyView::UInt32,
        Ty::Int64 => TyView::Int64,
        Ty::UInt64 => TyView::UInt64,
        Ty::Double => TyView::Double,
        Ty::Str => TyView::Str,
        Ty::ObjectPath => TyView::ObjectPath,
        Ty::Sig => TyView::Sig,
        Ty::Variant => TyView::Variant,
        Ty::Array(e) => TyView::Array(Box::new(ty_view(*e))),
        Ty::Struct(fs) => TyView::Struct(tys_view(fs@)),
        Ty::DictEntry(k, v) => TyView::DictEntry(Box::new(ty_view(*k)), Box::new(ty_view(*v))),
    }
}

pub open spec fn tys_view(ts: Seq<Ty>) -> Seq<TyView>
    decreases ts,
{
    if ts.len() == 0 {
        Seq::empty()
    } else {
        seq![ty_view(ts[0])] + tys_view(ts.subrange(1, ts.len() as int))
    }
}

impl View for Ty {
    type V = TyView;

    open spec fn view(&self) -> TyView {
        ty_view(*self)
    }
}

/// A parsed signature: an ordered sequence of complete types.
#[derive(Debug, PartialEq, Eq)]
pub struct Signature {
    pub elems: Vec<Ty>,
}

impl View for Signature {
    type V = Seq<TyView>;

    open spec fn view(&self) -> Seq<TyView> {
        tys_view(self.elems@)
    }
}

/// Parse-time failure: the text is not a valid signature.
#[derive(Clone, Copy, Debug, PartialEq, Eq, Structural)]
pub enum SigError {
    MalformedSignature,
}

/// The atomic ("basic") kinds; only these may key a dict entry.
pub open spec fn is_basic_ty(t: TyView) -> bool {
    match t {
        TyView::Byte => true,
        TyView::Bool => true,
        TyView::Int16 => true,
        TyView::UInt16 => true,
        TyView::Int32 => true,
        TyView::UInt32 => true,
        TyView::Int64 => true,
        TyView::UInt64 => true,
        TyView::Double => true,
        TyView::Str => true,
        TyView::ObjectPath => true,
        TyView::Sig => true,
        _ => false,
    }
}

/// The canonical text of one complete type.
pub open spec fn ty_text(t: TyView) -> Seq<u8>
    decreases t,
{
    match t {
        TyView::Byte => seq![TC_BYTE],
        TyView::Bool => seq![TC_BOOL],
        TyView::Int16 => seq![TC_INT16],
        TyView::UInt16 => seq![TC_UINT16],
        TyView::Int32 => seq![TC_INT32],
        TyView::UInt32 => seq![TC_UINT32],
        TyView::Int64 => seq![TC_INT64],
        TyView::UInt64 => seq![TC_UINT64],
        TyView::Double => seq![TC_DOUBLE],
        TyView::Str => seq![TC_STRING],
        TyView::ObjectPath => seq![TC_OBJECT_PATH],
        TyView::Sig => seq![TC_SIGNATURE],
        TyView::Variant => seq![TC_VARIANT],
        TyView::Array(e) => seq![TC_ARRAY] + ty_text(*e),
        TyView::Struct(fs) => seq![TC_STRUCT_OPEN] + tys_text(fs) + seq![TC_STRUCT_CLOSE],
        TyView::DictEntry(k, v) => seq![TC_DICT_OPEN] + ty_text(*k) + ty_text(*v) + seq![TC_DICT_CLOSE],
    }
}

/// The canonical text of a sequence of complete types.
pub open spec fn tys_text(ts: Seq<TyView>) -> Seq<u8>
    decreases ts,
{
    if ts.len() == 0 {
        Seq::empty()
    } else {
        ty_text(ts[0]) + tys_text(ts.subrange(1, ts.len() as int))
    }
}

/// Specification of the recursive-descent parse of one complete type
/// starting at position `i`, with `depth` levels of container nesting
/// still allowed.  Returns the type and the position just past it.
pub open spec fn parse_ty(s: Seq<u8>, i: int, depth: nat) -> Option<(TyView, int)>
    decreases depth, s.len() - i, 0int,
{
    if i < 0 || i >= s.len() {
        None
    } else {
        let c = s[i];
        if c == TC_BYTE { Some((TyView::Byte, i + 1)) }
        else if c == TC_BOOL { Some((TyView::Bool, i + 1)) }
        else if c == TC_INT16 { Some((TyView::Int16, i + 1)) }
        else if c == TC_UINT16 { Some((TyView::UInt16, i + 1)) }
        else if c == TC_INT32 { Some((TyView::Int32, i + 1)) }
        else if c == TC_UINT32 { Some((TyView::UInt32, i + 1)) }
        else if c == TC_INT64 { Some((TyView::Int64, i + 1)) }
        else if c == TC_UINT64 { Some((TyView::UInt64, i + 1)) }
        else if c == TC_DOUBLE { Some((TyView::Double, i + 1)) }
        else if c == TC_STRING { Some((TyView::Str, i + 1)) }
        else if c == TC_OBJECT_PATH { Some((TyView::ObjectPath, i + 1)) }
        else if c == TC_SIGNATURE { Some((TyView::Sig, i + 1)) }
        else if c == TC_VARIANT { Some((TyView::Variant, i + 1)) }
        else if c == TC_ARRAY {
            if depth == 0 {
                None
            } else {
                match parse_elem(s, i + 1, (depth - 1) as nat) {
                    Some((t, j)) => Some((TyView::Array(Box::new(t)), j)),
                    None => None,
                }
            }
        } else if c == TC_STRUCT_OPEN {
            if depth == 0 {
                None
            } else {
                match parse_fields(s, i + 1, (depth - 1) as nat) {
                    Some((fs, j)) => if fs.len() == 0 {
                        None
                    } else {
                        Some((TyView::Struct(fs), j))
                    },
                    None => None,
                }
            }
        } else {
            None
        }
    }
}

/// Specification of the parse of one array element type: either a dict
/// entry (legal only here) or any complete type.
pub open spec fn parse_elem(s: Seq<u8>, i: int, depth: nat) -> Option<(TyView, int)>
    decreases depth, s.len() - i, 1int,
{
    if i < 0 || i >= s.len() {
        None
    } else if s[i] == TC_DICT_OPEN {
        if depth == 0 {
            None
        } else {
            match parse_ty(s, i + 1, (depth - 1) as nat) {
                Some((k, j)) => if !is_basic_ty(k) {
                    None
                } else {
                    match parse_ty(s, j, (depth - 1) as nat) {
                        Some((v, l)) => if 0 <= l && l < s.len() && s[l] == TC_DICT_CLOSE {
                            Some((TyView::DictEntry(Box::new(k), Box::new(v)), l + 1))
                        } else {
                            None
                        },
                        None => None,
                    }
                },
                None => None,
            }
        }
    } else {
        parse_ty(s, i, depth)
    }
}

/// Specification of the parse of struct field types up to the closing
/// parenthesis.  Returns the fields and the position just past `)`.
pub open spec fn parse_fields(s: Seq<u8>, i: int, depth: nat) -> Option<(Seq<TyView>, int)>
    decreases depth, s.len() - i, 2int,
{
    if i < 0 || i >= s.len() {
        None
    } else if s[i] == TC_STRUCT_CLOSE {
        Some((Seq::empty(), i + 1))
    } else {
        match parse_ty(s, i, depth) {
            Some((t, j)) => if j <= i || j > s.len() {
                None
            } else {
                match parse_fields(s, j, depth) {
                    Some((ts, k)) => Some((seq![t] + ts, k)),
                    None => None,
                }
            },
            None => None,
        }
    }
}

/// Specification of the parse of a whole signature from position `i`.
pub open spec fn parse_sig_from(s: Seq<u8>, i: int) -> Option<Seq<TyView>>
    decreases s.len() - i,
{
    if i < 0 || i > s.len() {
        None
    } else if i == s.len() {
        Some(Seq::empty())
    } else {
        match parse_ty(s, i, MAX_NESTING_DEPTH as nat) {
            Some((t, j)) => if j <= i || j > s.len() {
                None
            } else {
                match parse_sig_from(s, j) {
                    Some(ts) => Some(seq![t] + ts),
                    None => None,
                }
            },
            None => None,
        }
    }
}

/// Specification of signature parsing: the length ceiling, then a full
/// left-to-right parse that must consume the whole text.
pub open spec fn parse_sig(s: Seq<u8>) -> Option<Seq<TyView>> {
    if s.len() > MAX_SIGNATURE_LEN as int {
        None
    } else {
        parse_sig_from(s, 0)
    }
}

pub proof fn lemma_tys_view_len(ts: Seq<Ty>)
    ensures
        tys_view(ts).len() == ts.len(),
    decreases ts,
{
    if ts.len() != 0 {
        lemma_tys_view_len(ts.subrange(1, ts.len() as int));
    }
}

pub proof fn lemma_tys_text_concat(a: Seq<TyView>, b: Seq<TyView>)
    ensures
        tys_text(a + b) == tys_text(a) + tys_text(b),
    decreases a,
{
    if a.len() == 0 {
        assert(a + b =~= b);
        assert(tys_text(a) + tys_text(b) =~= tys_text(b));
    } else {
        lemma_tys_text_concat(a.subrange(1, a.len() as int), b);
        assert((a + b).subrange(1, (a + b).len() as int) =~= a.subrange(1, a.len() as int) + b);
        assert((a + b)[0] == a[0]);
        assert(ty_text(a[0]) + (tys_text(a.subrange(1, a.len() as int)) + tys_text(b)) =~= (
        ty_text(a[0]) + tys_text(a.subrange(1, a.len() as int))) + tys_text(b));
    }
}

/// Whether a type is one of the atomic kinds.
pub fn is_basic(t: &Ty) -> (r: bool)
    ensures
        r == is_basic_ty(t@),
{
    match t {
        Ty::Byte => true,
        Ty::Bool => true,
        Ty::Int16 => true,
        Ty::UInt16 => true,
        Ty::Int32 => true,
        Ty::UInt32 => true,
        Ty::Int64 => true,
        Ty::UInt64 => true,
        Ty::Double => true,
        Ty::Str => true,
        Ty::ObjectPath => true,
        Ty::Sig => true,
        _ => false,
    }
}

fn parse_ty_at(s: &Vec<u8>, i: usize, depth: u32) -> (r: Option<(Ty, usize)>)
    ensures
        (match r {
            Some((t, j)) => parse_ty(s@, i as int, depth as nat) == Some((t@, j as int)) && i < j
                <= s@.len(),
            None => parse_ty(s@, i as int, depth as nat) is None,
        }),
    decreases depth, s@.len() - i, 0int,
{
    if i >= s.len() {
        return None;
    }
    let c = s[i];
    if c == TC_BYTE { Some((Ty::Byte, i + 1)) }
    else if c == TC_BOOL { Some((Ty::Bool, i + 1)) }
    else if c == TC_INT16 { Some((Ty::Int16, i + 1)) }
    else if c == TC_UINT16 { Some((Ty::UInt16, i + 1)) }
    else if c == TC_INT32 { Some((Ty::Int32, i + 1)) }
    else if c == TC_UINT32 { Some((Ty::UInt32, i + 1)) }
    else if c == TC_INT64 { Some((Ty::Int64, i + 1)) }
    else if c == TC_UINT64 { Some((Ty::UInt64, i + 1)) }
    else if c == TC_DOUBLE { Some((Ty::Double, i + 1)) }
    else if c == TC_STRING { Some((Ty::Str, i + 1)) }
    else if c == TC_OBJECT_PATH { Some((Ty::ObjectPath, i + 1)) }
    else if c == TC_SIGNATURE { Some((Ty::Sig, i + 1)) }
    else if c == TC_VARIANT { Some((Ty::Variant, i + 1)) }
    else if c == TC_ARRAY {
        if depth == 0 {
            None
        } else {
            match parse_elem_at(s, i + 1, depth - 1) {
                Some((t, j)) => Some((Ty::Array(Box::new(t)), j)),
                None => None,
            }
        }
    } else if c == TC_STRUCT_OPEN {
        if depth == 0 {
            None
        } else {
            match parse_fields_at(s, i + 1, depth - 1) {
                Some((fs, j)) => {
                    if fs.len() == 0 {
                        proof {
                            lemma_tys_view_len(fs@);
                        }
                        None
                    } else {
                        proof {
                            lemma_tys_view_len(fs@);
                        }
                        Some((Ty::Struct(fs), j))
                    }
                },
                None => None,
            }
        }
    } else {
        None
    }
}

fn parse_elem_at(s: &Vec<u8>, i: usize, depth: u32) -> (r: Option<(Ty, usize)>)
    ensures
        (match r {
            Some((t, j)) => parse_elem(s@, i as int, depth as nat) == Some((t@, j as int)) && i < j
                <= s@.len(),
            None => parse_elem(s@, i as int, depth as nat) is None,
        }),
    decreases depth, s@.len() - i, 1int,
{
    if i >= s.len() {
        return None;
    }
    if s[i] == TC_DICT_OPEN {
        if depth == 0 {
            return None;
        }
        match parse_ty_at(s, i + 1, depth - 1) {
            Some((k, j)) => {
                if !is_basic(&k) {
                    None
                } else {
                    match parse_ty_at(s, j, depth - 1) {
                        Some((v, l)) => {
                            if l < s.len() && s[l] == TC_DICT_CLOSE {
                                Some((Ty::DictEntry(Box::new(k), Box::new(v)), l + 1))
                            } else {
                                None
                            }
                        },
                        None => None,
                    }
                }
            },
            None => None,
        }
    } else {
        parse_ty_at(s, i, depth)
    }
}

fn parse_fields_at(s: &Vec<u8>, i: usize, depth: u32) -> (r: Option<(Vec<Ty>, usize)>)
    ensures
        (match r {
            Some((fs, j)) => parse_fields(s@, i as int, depth as nat) == Some(
                (tys_view(fs@), j as int),
            ) && i < j <= s@.len(),
            None => parse_fields(s@, i as int, depth as nat) is None,
        }),
    decreases depth, s@.len() - i, 2int,
{
    if i >= s.len() {
        return None;
    }
    if s[i] == TC_STRUCT_CLOSE {
        let fs: Vec<Ty> = Vec::new();
        return Some((fs, i + 1));
    }
    match parse_ty_at(s, i, depth) {
        None => None,
        Some((t, j)) => {
            let ghost tv = t@;
            match parse_fields_at(s, j, depth) {
                None => None,
                Some((mut ts, k)) => {
                    let ghost old_ts = ts@;
                    ts.insert(0, t);
                    proof {
                        assert(ts@ =~= seq![t] + old_ts);
                        assert(ts@.subrange(1, ts@.len() as int) =~= old_ts);
                        assert(tys_view(ts@) == seq![tv] + tys_view(old_ts));
                    }
                    Some((ts, k))
                },
            }
        },
    }
}

fn parse_from(s: &Vec<u8>, i: usize) -> (r: Option<Vec<Ty>>)
    ensures
        (match r {
            Some(ts) => parse_sig_from(s@, i as int) == Some(tys_view(ts@)),
            None => parse_sig_from(s@, i as int) is None,
        }),
    decreases s@.len() - i,
{
    if i >= s.len() {
        if i == s.len() {
            let ts: Vec<Ty> = Vec::new();
            return Some(ts);
        }
        return None;
    }
    match parse_ty_at(s, i, MAX_NESTING_DEPTH) {
        None => None,
        Some((t, j)) => {
            let ghost tv = t@;
            match parse_from(s, j) {
                None => None,
                Some(mut ts) => {
                    let ghost old_ts = ts@;
                    ts.insert(0, t);
                    proof {
                        assert(ts@ =~= seq![t] + old_ts);
                        assert(ts@.subrange(1, ts@.len() as int) =~= old_ts);
                        assert(tys_view(ts@) == seq![tv] + tys_view(old_ts));
                    }
                    Some(ts)
                },
            }
        },
    }
}

fn write_ty(t: &Ty, out: &mut Vec<u8>)
    ensures
        final(out)@ == old(out)@ + ty_text(t@),
    decreases *t, 0int,
{
    match t {
        Ty::Byte => out.push(TC_BYTE),
        Ty::Bool => out.push(TC_BOOL),
        Ty::Int16 => out.push(TC_INT16),
        Ty::UInt16 => out.push(TC_UINT16),
        Ty::Int32 => out.push(TC_INT32),
        Ty::UInt32 => out.push(TC_UINT32),
        Ty::Int64 => out.push(TC_INT64),
        Ty::UInt64 => out.push(TC_UINT64),
        Ty::Double => out.push(TC_DOUBLE),
        Ty::Str => out.push(TC_STRING),
        Ty::ObjectPath => out.push(TC_OBJECT_PATH),
        Ty::Sig => out.push(TC_SIGNATURE),
        Ty::Variant => out.push(TC_VARIANT),
        Ty::Array(e) => {
            out.push(TC_ARRAY);
            write_ty(e, out);
            assert(out@ =~= old(out)@ + ty_text(t@));
        },
        Ty::Struct(fs) => {
            out.push(TC_STRUCT_OPEN);
            write_tys(fs, 0, out);
            out.push(TC_STRUCT_CLOSE);
            proof {
                assert(fs@.subrange(0, fs@.len() as int) =~= fs@);
                assert(out@ =~= old(out)@ + ty_text(t@));
            }
        },
        Ty::DictEntry(k, v) => {
            out.push(TC_DICT_OPEN);
            write_ty(k, out);
            write_ty(v, out);
            out.push(TC_DICT_CLOSE);
            assert(out@ =~= old(out)@ + ty_text(t@));
        },
    }
    assert(out@ =~= old(out)@ + ty_text(t@));
}

fn write_tys(ts: &Vec<Ty>, from: usize, out: &mut Vec<u8>)
    requires
        from <= ts@.len(),
    ensures
        final(out)@ == old(out)@ + tys_text(tys_view(ts@.subrange(from as int, ts@.len() as int))),
    decreases ts@, ts@.len() - from,
{
    if from == ts.len() {
        assert(out@ =~= old(out)@ + tys_text(
            tys_view(ts@.subrange(from as int, ts@.len() as int)),
        ));
        return ;
    }
    let t = &ts[from];
    write_ty(t, out);
    write_tys(ts, from + 1, out);
    proof {
        let tail = ts@.subrange(from as int, ts@.len() as int);
        assert(tail[0] == ts@[from as int]);
        assert(tail.subrange(1, tail.len() as int) =~= ts@.subrange(
            from as int + 1,
            ts@.len() as int,
        ));
        assert(tys_view(tail) == seq![ty_view(ts@[from as int])] + tys_view(
            ts@.subrange(from as int + 1, ts@.len() as int),
        ));
        lemma_tys_text_concat(
            seq![ty_view(ts@[from as int])],
            tys_view(ts@.subrange(from as int + 1, ts@.len() as int)),
        );
        let single = seq![ty_view(ts@[from as int])];
        assert(single.subrange(1, single.len() as int) =~= Seq::<TyView>::empty());
        assert(ty_text(ty_view(ts@[from as int])) + tys_text(Seq::<TyView>::empty()) =~= ty_text(
            ty_view(ts@[from as int]),
        ));
        assert(tys_text(single) =~= ty_text(ty_view(ts@[from as int])));
        assert(out@ =~= old(out)@ + tys_text(tys_view(tail)));
    }
}

impl Signature {
    /// Parse signature text; fails on any text that is not a valid
    /// signature within the protocol's nesting and length ceilings.
    pub fn parse(text: &Vec<u8>) -> (r: Result<Signature, SigError>)
        ensures
            (match r {
                Ok(sig) => parse_sig(text@) == Some(sig@),
                Err(e) => parse_sig(text@) is None && e == SigError::MalformedSignature,
            }),
    {
        if text.len() > MAX_SIGNATURE_LEN {
            return Err(SigError::MalformedSignature);
        }
        match parse_from(text, 0) {
            Some(elems) => Ok(Signature { elems }),
            None => Err(SigError::MalformedSignature),
        }
    }

    /// Render the signature back to its canonical text.
    pub fn to_text(&self) -> (r: Vec<u8>)
        ensures
            r@ == tys_text(self@),
    {
        let mut out: Vec<u8> = Vec::new();
        write_tys(&self.elems, 0, &mut out);
        proof {
            assert(self.elems@.subrange(0, self.elems@.len() as int) =~= self.elems@);
            assert(out@ =~= tys_text(self@));
        }
        out
    }

    /// How many complete types the signature holds.
    pub fn len(&self) -> (r: usize)
        ensures
            r == self@.len(),
    {
        proof {
            lemma_tys_view_len(self.elems@);
        }
        self.elems.len()
    }
}

impl Ty {
    /// The element type of an array, and nothing else.
    pub fn element_type(&self) -> (r: Option<&Ty>)
        ensures
            (match r {
                Some(e) => self@ matches TyView::Array(b) && e@ == *b,
                None => !(self@ matches TyView::Array(_)),
            }),
    {
        match self {
            Ty::Array(e) => Some(&**e),
            _ => None,
        }
    }

    /// The field types of a struct, in order, and nothing else.
    pub fn field_types(&self) -> (r: Option<&Vec<Ty>>)
        ensures
            (match r {
                Some(fs) => self@ matches TyView::Struct(s) && tys_view(fs@) == s,
                None => !(self@ matches TyView::Struct(_)),
            }),
    {
        match self {
            Ty::Struct(fs) => Some(fs),
            _ => None,
        }
    }
}

pub proof fn lemma_parse_ty_text(s: Seq<u8>, i: int, depth: nat)
    ensures
        (match parse_ty(s, i, depth) {
            Some((t, j)) => i < j <= s.len() && ty_text(t) == s.subrange(i, j),
            None => true,
        }),
    decreases depth, s.len() - i, 0int,
{
    match parse_ty(s, i, depth) {
        None => {},
        Some((t, j)) => {
            if s[i] == TC_ARRAY {
                lemma_parse_elem_text(s, i + 1, (depth - 1) as nat);
                assert(ty_text(t) =~= s.subrange(i, j));
            } else if s[i] == TC_STRUCT_OPEN {
                lemma_parse_fields_text(s, i + 1, (depth - 1) as nat);
                assert(ty_text(t) =~= s.subrange(i, j));
            } else {
                assert(ty_text(t) =~= s.subrange(i, j));
            }
        },
    }
}

pub proof fn lemma_parse_elem_text(s: Seq<u8>, i: int, depth: nat)
    ensures
        (match parse_elem(s, i, depth) {
            Some((t, j)) => i < j <= s.len() && ty_text(t) == s.subrange(i, j),
            None => true,
        }),
    decreases depth, s.len() - i, 1int,
{
    match parse_elem(s, i, depth) {
        None => {},
        Some((t, j)) => {
            if s[i] == TC_DICT_OPEN {
                lemma_parse_ty_text(s, i + 1, (depth - 1) as nat);
                let (k, m) = parse_ty(s, i + 1, (depth - 1) as nat).unwrap();
                lemma_parse_ty_text(s, m, (depth - 1) as nat);
                assert(ty_text(t) =~= s.subrange(i, j));
            } else {
                lemma_parse_ty_text(s, i, depth);
            }
        },
    }
}

pub proof fn lemma_parse_fields_text(s: Seq<u8>, i: int, depth: nat)
    ensures
        (match parse_fields(s, i, depth) {
            Some((ts, k)) => i < k <= s.len() && s[k - 1] == TC_STRUCT_CLOSE && tys_text(ts)
                == s.subrange(i, k - 1),
            None => true,
        }),
    decreases depth, s.len() - i, 2int,
{
    match parse_fields(s, i, depth) {
        None => {},
        Some((ts, k)) => {
            if s[i] == TC_STRUCT_CLOSE {
                assert(tys_text(ts) =~= s.subrange(i, i));
            } else {
                lemma_parse_ty_text(s, i, depth);
                let (t, j) = parse_ty(s, i, depth).unwrap();
                lemma_parse_fields_text(s, j, depth);
                let (rest, _) = parse_fields(s, j, depth).unwrap();
                assert((seq![t] + rest)[0] == t);
                assert((seq![t] + rest).subrange(1, (seq![t] + rest).len() as int) =~= rest);
                assert(tys_text(ts) == ty_text(t) + tys_text(rest));
                assert(tys_text(ts) =~= s.subrange(i, k - 1));
            }
        },
    }
}

pub proof fn lemma_parse_sig_from_text(s: Seq<u8>, i: int)
    ensures
        (match parse_sig_from(s, i) {
            Some(ts) => tys_text(ts) == s.subrange(i, s.len() as int),
            None => true,
        }),
    decreases s.len() - i,
{
    match parse_sig_from(s, i) {
        None => {},
        Some(ts) => {
            if i == s.len() {
                assert(tys_text(ts) =~= s.subrange(i, s.len() as int));
            } else {
                lemma_parse_ty_text(s, i, MAX_NESTING_DEPTH as nat);
                let (t, j) = parse_ty(s, i, MAX_NESTING_DEPTH as nat).unwrap();
                lemma_parse_sig_from_text(s, j);
                let rest = parse_sig_from(s, j).unwrap();
                assert((seq![t] + rest)[0] == t);
                assert((seq![t] + rest).subrange(1, (seq![t] + rest).len() as int) =~= rest);
                assert(tys_text(ts) == ty_text(t) + tys_text(rest));
                assert(tys_text(ts) =~= s.subrange(i, s.len() as int));
            }
        },
    }
}

/// Well-formedness of a type against a remaining nesting budget: what
/// the grammar can express at that depth.  A dict entry never stands
/// alone; see `elem_ok`.
pub open spec fn ty_ok(t: TyView, depth: nat) -> bool
    decreases t, 0int,
{
    match t {
        TyView::Array(e) => depth >= 1 && elem_ok(*e, (depth - 1) as nat),
        TyView::Struct(fs) => depth >= 1 && fs.len() >= 1 && tys_ok(fs, (depth - 1) as nat),
        TyView::DictEntry(_, _) => false,
        _ => true,
    }
}

/// Well-formedness of an array element type: a dict entry (with a
/// basic key) is allowed here and only here.
pub open spec fn elem_ok(t: TyView, depth: nat) -> bool
    decreases t, 1int,
{
    match t {
        TyView::DictEntry(k, v) => depth >= 1 && is_basic_ty(*k) && ty_ok(*v, (depth - 1) as nat),
        _ => ty_ok(t, depth),
    }
}

pub open spec fn tys_ok(ts: Seq<TyView>, depth: nat) -> bool
    decreases ts,
{
    if ts.len() == 0 {
        true
    } else {
        ty_ok(ts[0], depth) && tys_ok(ts.subrange(1, ts.len() as int), depth)
    }
}

pub proof fn lemma_tys_ok_elts(ts: Seq<TyView>, depth: nat)
    ensures
        tys_ok(ts, depth) <==> (forall|i: int|
            0 <= i < ts.len() ==> ty_ok(#[trigger] ts[i], depth)),
    decreases ts,
{
    if ts.len() != 0 {
        lemma_tys_ok_elts(ts.subrange(1, ts.len() as int), depth);
        assert forall|i: int| 0 <= i < ts.len() && tys_ok(ts, depth) implies ty_ok(
            #[trigger] ts[i],
            depth,
        ) by {
            if i > 0 {
                assert(ts.subrange(1, ts.len() as int)[i - 1] == ts[i]);
            }
        }
        if forall|i: int| 0 <= i < ts.len() ==> ty_ok(#[trigger] ts[i], depth) {
            assert forall|i: int|
                0 <= i < ts.subrange(1, ts.len() as int).len() implies ty_ok(
                #[trigger] ts.subrange(1, ts.len() as int)[i],
                depth,
            ) by {
                assert(ts.subrange(1, ts.len() as int)[i] == ts[i + 1]);
            }
        }
    }
}

/// Every type's text is non-empty, never opens with a closing
/// parenthesis, and opens with a brace only for a dict entry.
pub proof fn lemma_ty_text_first(t: TyView)
    ensures
        ty_text(t).len() > 0,
        ty_text(t)[0] != TC_STRUCT_CLOSE,
        !(t matches TyView::DictEntry(_, _)) ==> ty_text(t)[0] != TC_DICT_OPEN,
{
    match t {
        TyView::Array(e) => {
            assert(ty_text(t)[0] == TC_ARRAY);
        },
        TyView::Struct(fs) => {
            assert(ty_text(t)[0] == TC_STRUCT_OPEN);
        },
        TyView::DictEntry(k, v) => {
            assert(ty_text(t)[0] == TC_DICT_OPEN);
        },
        _ => {},
    }
}

proof fn lemma_seq_at(s: Seq<u8>, i: int, t: Seq<u8>, off: int)
    requires
        0 <= i,
        i + t.len() <= s.len(),
        s.subrange(i, i + t.len()) == t,
        0 <= off < t.len(),
    ensures
        s[i + off] == t[off],
{
    assert(s.subrange(i, i + t.len())[off] == s[i + off]);
}

proof fn lemma_seq_shift(s: Seq<u8>, i: int, t: Seq<u8>, off: int, part: Seq<u8>)
    requires
        0 <= i,
        0 <= off,
        off + part.len() <= t.len(),
        i + t.len() <= s.len(),
        s.subrange(i, i + t.len()) == t,
        forall|k: int| 0 <= k < part.len() ==> part[k] == t[off + k],
    ensures
        s.subrange(i + off, i + off + part.len()) == part,
{
    assert forall|k: int|
        0 <= k < part.len() implies s.subrange(i + off, i + off + part.len())[k] == part[k] by {
        assert(s.subrange(i + off, i + off + part.len())[k] == s[i + off + k]);
        assert(s.subrange(i, i + t.len())[off + k] == s[i + off + k]);
    }
    assert(s.subrange(i + off, i + off + part.len()) =~= part);
}

pub proof fn lemma_parse_ty_complete(s: Seq<u8>, i: int, depth: nat, t: TyView)
    requires
        ty_ok(t, depth),
        0 <= i,
        i + ty_text(t).len() <= s.len(),
        s.subrange(i, i + ty_text(t).len()) == ty_text(t),
    ensures
        parse_ty(s, i, depth) == Some((t, i + ty_text(t).len())),
    decreases depth, s.len() - i, 0int,
{
    let tt = ty_text(t);
    let n = tt.len() as int;
    lemma_seq_at(s, i, tt, 0);
    match t {
        TyView::Array(e) => {
            let et = ty_text(*e);
            assert(tt == seq![TC_ARRAY] + et);
            assert(s[i] == TC_ARRAY);
            assert forall|k: int| 0 <= k < et.len() implies et[k] == tt[1 + k] by {
                assert((seq![TC_ARRAY] + et)[1 + k] == et[k]);
            }
            lemma_seq_shift(s, i, tt, 1, et);
            lemma_parse_elem_complete(s, i + 1, (depth - 1) as nat, *e);
        },
        TyView::Struct(fs) => {
            let ft = tys_text(fs);
            assert(tt == seq![TC_STRUCT_OPEN] + ft + seq![TC_STRUCT_CLOSE]);
            assert(s[i] == TC_STRUCT_OPEN) by {
                assert(((seq![TC_STRUCT_OPEN] + ft) + seq![TC_STRUCT_CLOSE])[0]
                    == TC_STRUCT_OPEN);
            }
            assert forall|k: int| 0 <= k < ft.len() implies ft[k] == tt[1 + k] by {
                assert(((seq![TC_STRUCT_OPEN] + ft) + seq![TC_STRUCT_CLOSE])[1 + k] == ft[k]);
            }
            lemma_seq_shift(s, i, tt, 1, ft);
            assert(s[i + 1 + ft.len()] == TC_STRUCT_CLOSE) by {
                assert(((seq![TC_STRUCT_OPEN] + ft) + seq![TC_STRUCT_CLOSE])[1 + ft.len() as int]
                    == TC_STRUCT_CLOSE);
                lemma_seq_at(s, i, tt, 1 + ft.len() as int);
            }
            lemma_tys_ok_elts(fs, (depth - 1) as nat);
            lemma_parse_fields_complete(s, i + 1, (depth - 1) as nat, fs);
        },
        TyView::DictEntry(_, _) => {},
        _ => {},
    }
}

pub proof fn lemma_parse_elem_complete(s: Seq<u8>, i: int, depth: nat, t: TyView)
    requires
        elem_ok(t, depth),
        0 <= i,
        i + ty_text(t).len() <= s.len(),
        s.subrange(i, i + ty_text(t).len()) == ty_text(t),
    ensures
        parse_elem(s, i, depth) == Some((t, i + ty_text(t).len())),
    decreases depth, s.len() - i, 1int,
{
    let tt = ty_text(t);
    lemma_seq_at(s, i, tt, 0);
    match t {
        TyView::DictEntry(k, v) => {
            let kt = ty_text(*k);
            let vt = ty_text(*v);
            assert(tt == seq![TC_DICT_OPEN] + kt + vt + seq![TC_DICT_CLOSE]);
            assert(s[i] == TC_DICT_OPEN) by {
                assert((((seq![TC_DICT_OPEN] + kt) + vt) + seq![TC_DICT_CLOSE])[0]
                    == TC_DICT_OPEN);
            }
            assert forall|m: int| 0 <= m < kt.len() implies kt[m] == tt[1 + m] by {
                assert((((seq![TC_DICT_OPEN] + kt) + vt) + seq![TC_DICT_CLOSE])[1 + m] == kt[m]);
            }
            lemma_seq_shift(s, i, tt, 1, kt);
            assert forall|m: int| 0 <= m < vt.len() implies vt[m] == tt[1 + kt.len() + m] by {
                assert((((seq![TC_DICT_OPEN] + kt) + vt) + seq![TC_DICT_CLOSE])[1 + kt.len() + m]
                    == vt[m]);
            }
            lemma_seq_shift(s, i, tt, 1 + kt.len() as int, vt);
            assert(s[i + 1 + kt.len() + vt.len()] == TC_DICT_CLOSE) by {
                assert((((seq![TC_DICT_OPEN] + kt) + vt) + seq![TC_DICT_CLOSE])[1 + kt.len()
                    as int + vt.len() as int] == TC_DICT_CLOSE);
                lemma_seq_at(s, i, tt, 1 + kt.len() as int + vt.len() as int);
            }
            assert(ty_ok(*k, (depth - 1) as nat));
            lemma_parse_ty_complete(s, i + 1, (depth - 1) as nat, *k);
            lemma_parse_ty_complete(s, i + 1 + kt.len(), (depth - 1) as nat, *v);
        },
        _ => {
            lemma_ty_text_first(t);
            lemma_parse_ty_complete(s, i, depth, t);
        },
    }
}

pub proof fn lemma_parse_fields_complete(s: Seq<u8>, i: int, depth: nat, fs: Seq<TyView>)
    requires
        forall|j: int| 0 <= j < fs.len() ==> ty_ok(#[trigger] fs[j], depth),
        0 <= i,
        i + tys_text(fs).len() + 1 <= s.len(),
        s.subrange(i, i + tys_text(fs).len()) == tys_text(fs),
        s[i + tys_text(fs).len()] == TC_STRUCT_CLOSE,
    ensures
        parse_fields(s, i, depth) == Some((fs, i + tys_text(fs).len() + 1)),
    decreases depth, s.len() - i, 2int,
{
    if fs.len() == 0 {
        assert(s[i] == TC_STRUCT_CLOSE);
    } else {
        let t0 = fs[0];
        let rest = fs.subrange(1, fs.len() as int);
        let t0t = ty_text(t0);
        let ft = tys_text(fs);
        let rt = tys_text(rest);
        assert(ft == t0t + rt);
        lemma_ty_text_first(t0);
        assert(s[i] == t0t[0]) by {
            assert((t0t + rt)[0] == t0t[0]);
            lemma_seq_at(s, i, ft, 0);
        }
        assert(s[i] != TC_STRUCT_CLOSE);
        assert forall|m: int| 0 <= m < t0t.len() implies t0t[m] == ft[m] by {
            assert((t0t + rt)[m] == t0t[m]);
        }
        lemma_seq_shift(s, i, ft, 0, t0t);
        lemma_parse_ty_complete(s, i, depth, t0);
        let j = i + t0t.len() as int;
        assert forall|m: int| 0 <= m < rt.len() implies rt[m] == ft[t0t.len() + m] by {
            assert((t0t + rt)[t0t.len() + m] == rt[m]);
        }
        lemma_seq_shift(s, i, ft, t0t.len() as int, rt);
        assert(forall|m: int| 0 <= m < rest.len() ==> rest[m] == fs[m + 1]);
        lemma_parse_fields_complete(s, j, depth, rest);
        assert(seq![t0] + rest =~= fs);
    }
}

pub proof fn lemma_parse_sig_from_complete(s: Seq<u8>, i: int, ts: Seq<TyView>)
    requires
        forall|j: int| 0 <= j < ts.len() ==> ty_ok(#[trigger] ts[j], MAX_NESTING_DEPTH as nat),
        0 <= i,
        i + tys_text(ts).len() == s.len(),
        s.subrange(i, s.len() as int) == tys_text(ts),
    ensures
        parse_sig_from(s, i) == Some(ts),
    decreases s.len() - i,
{
    if ts.len() == 0 {
        assert(i == s.len());
    } else {
        let t0 = ts[0];
        let rest = ts.subrange(1, ts.len() as int);
        let t0t = ty_text(t0);
        let st = tys_text(ts);
        let rt = tys_text(rest);
        assert(st == t0t + rt);
        lemma_ty_text_first(t0);
        assert(i < s.len());
        assert forall|m: int| 0 <= m < t0t.len() implies t0t[m] == st[m] by {
            assert((t0t + rt)[m] == t0t[m]);
        }
        lemma_seq_shift(s, i, st, 0, t0t);
        lemma_parse_ty_complete(s, i, MAX_NESTING_DEPTH as nat, t0);
        let j = i + t0t.len() as int;
        assert forall|m: int| 0 <= m < rt.len() implies rt[m] == st[t0t.len() + m] by {
            assert((t0t + rt)[t0t.len() + m] == rt[m]);
        }
        lemma_seq_shift(s, i, st, t0t.len() as int, rt);
        assert(s.subrange(j, s.len() as int) =~= rt);
        assert(forall|m: int| 0 <= m < rest.len() ==> rest[m] == ts[m + 1]);
        lemma_parse_sig_from_complete(s, j, rest);
        assert(seq![t0] + rest =~= ts);
    }
}

/// The other direction of the round trip: the canonical text of any
/// well-formed signature that fits the protocol's ceilings parses
/// back to exactly that signature.
pub proof fn lemma_sig_parse_complete(ts: Seq<TyView>)
    requires
        forall|j: int| 0 <= j < ts.len() ==> ty_ok(#[trigger] ts[j], MAX_NESTING_DEPTH as nat),
        tys_text(ts).len() <= MAX_SIGNATURE_LEN as int,
    ensures
        parse_sig(tys_text(ts)) == Some(ts),
{
    let s = tys_text(ts);
    assert(s.subrange(0, s.len() as int) =~= s);
    lemma_parse_sig_from_complete(s, 0, ts);
}

/// Round trip: any text that parses as a signature renders back,
/// through the canonical text of the parse result, to itself.
pub proof fn lemma_sig_round_trip(s: Seq<u8>)
    ensures
        (match parse_sig(s) {
            Some(ts) => tys_text(ts) == s,
            None => true,
        }),
{
    lemma_parse_sig_from_text(s, 0);
    if parse_sig(s) is Some {
        assert(s.subrange(0, s.len() as int) =~= s);
    }
}

} // verus!
