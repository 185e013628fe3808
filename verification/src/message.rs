//! The message envelope: kind, header fields, and an ordered body of
//! wire values with typed read/write accessors.
//!
//! A message is created with a kind and its required fields, arguments
//! are appended in call order (the order is part of the wire contract),
//! and an inbound message is read sequentially through a cursor or by
//! index.  Reading the wrong type at a position is a recoverable
//! failure: peers cannot be trusted to send what was expected.

use vstd::prelude::*;

use crate::marshal::Arg;
use crate::value::Value;
use crate::value::ValueView;
use crate::value::bytes_clone;
use crate::value::lemma_vals_view_elts;
use crate::value::vals_view;

verus! {

/// The four message kinds of the bus protocol.
#[derive(Clone, Copy, Debug, PartialEq, Eq, Structural)]
pub enum MessageKind {
    MethodCall,
    MethodReturn,
    Signal,
    Error,
}

/// Read-time failure: the requested position is past the body, or the
/// value there is not of the requested type.
#[derive(Clone, Copy, Debug, PartialEq, Eq, Structural)]
pub enum ReadError {
    TypeMismatch,
    Exhausted,
}

/// The message envelope.  `serial` is assigned by the sending side
/// (zero until then); `sender` is populated by the bus on delivery.
#[derive(Debug, PartialEq, Eq)]
pub struct Message {
    pub kind: MessageKind,
    pub serial: u32,
    pub path: Option<Vec<u8>>,
    pub interface: Option<Vec<u8>>,
    pub member: Option<Vec<u8>>,
    pub destination: Option<Vec<u8>>,
    pub sender: Option<Vec<u8>>,
    pub reply_serial: Option<u32>,
    pub error_name: Option<Vec<u8>>,
    pub body: Vec<Value>,
}

/// Mathematical model of a message.
#[verifier::ext_equal]
pub struct MessageView {
    pub kind: MessageKind,
    pub serial: u32,
    pub path: Option<Seq<u8>>,
    pub interface: Option<Seq<u8>>,
    pub member: Option<Seq<u8>>,
    pub destination: Option<Seq<u8>>,
    pub sender: Option<Seq<u8>>,
    pub reply_serial: Option<u32>,
    pub error_name: Option<Seq<u8>>,
    pub body: Seq<ValueView>,
}

pub open spec fn opt_bytes_view(o: Option<Vec<u8>>) -> Option<Seq<u8>> {
    match o {
        Some(b) => Some(b@),
        None => None,
    }
}

impl View for Message {
    type V = MessageView;

    open spec fn view(&self) -> MessageView {
        MessageView {
            kind: self.kind,
            serial: self.serial,
            path: opt_bytes_view(self.path),
            interface: opt_bytes_view(self.interface),
            member: opt_bytes_view(self.member),
            destination: opt_bytes_view(self.destination),
            sender: opt_bytes_view(self.sender),
            reply_serial: self.reply_serial,
            error_name: opt_bytes_view(self.error_name),
            body: vals_view(self.body@),
        }
    }
}

/// Header invariant: each kind carries the fields the protocol
/// requires of it, and only an error message names an error.
pub open spec fn msg_wf(m: MessageView) -> bool {
    &&& (m.kind == MessageKind::MethodCall ==> m.path is Some && m.member is Some)
    &&& (m.kind == MessageKind::Signal ==> m.path is Some && m.member is Some && m.interface
        is Some)
    &&& (m.kind == MessageKind::MethodReturn ==> m.reply_serial is Some)
    &&& (m.kind == MessageKind::Error ==> m.reply_serial is Some && m.error_name is Some)
    &&& (m.error_name is Some ==> m.kind == MessageKind::Error)
}

/// Copy of an optional byte string.
pub fn opt_bytes_clone(o: &Option<Vec<u8>>) -> (r: Option<Vec<u8>>)
    ensures
        opt_bytes_view(r) == opt_bytes_view(*o),
{
    match o {
        Some(b) => Some(bytes_clone(b)),
        None => None,
    }
}

impl Message {
    /// A fresh method call addressed to `destination` (if any), aimed
    /// at `path` / `interface` / `member`, with an empty body.
    pub fn new_method_call(
        destination: Option<Vec<u8>>,
        path: Vec<u8>,
        interface: Option<Vec<u8>>,
        member: Vec<u8>,
    ) -> (m: Message)
        ensures
            m@ == (MessageView {
                kind: MessageKind::MethodCall,
                serial: 0,
                path: Some(path@),
                interface: opt_bytes_view(interface),
                member: Some(member@),
                destination: opt_bytes_view(destination),
                sender: None,
                reply_serial: None,
                error_name: None,
                body: Seq::empty(),
            }),
            msg_wf(m@),
    {
        let m = Message {
            kind: MessageKind::MethodCall,
            serial: 0,
            path: Some(path),
            interface,
            member: Some(member),
            destination,
            sender: None,
            reply_serial: None,
            error_name: None,
            body: Vec::new(),
        };
        proof {
            assert(m@ =~= (MessageView {
                kind: MessageKind::MethodCall,
                serial: 0,
                path: opt_bytes_view(m.path),
                interface: opt_bytes_view(m.interface),
                member: opt_bytes_view(m.member),
                destination: opt_bytes_view(m.destination),
                sender: None,
                reply_serial: None,
                error_name: None,
                body: Seq::empty(),
            }));
        }
        m
    }

    /// A fresh signal emitted from `path` on `interface` / `member`.
    pub fn new_signal(path: Vec<u8>, interface: Vec<u8>, member: Vec<u8>) -> (m: Message)
        ensures
            m@ == (MessageView {
                kind: MessageKind::Signal,
                serial: 0,
                path: Some(path@),
                interface: Some(interface@),
                member: Some(member@),
                destination: None,
                sender: None,
                reply_serial: None,
                error_name: None,
                body: Seq::empty(),
            }),
            msg_wf(m@),
    {
        let m = Message {
            kind: MessageKind::Signal,
            serial: 0,
            path: Some(path),
            interface: Some(interface),
            member: Some(member),
            destination: None,
            sender: None,
            reply_serial: None,
            error_name: None,
            body: Vec::new(),
        };
        proof {
            assert(m@.body =~= Seq::<ValueView>::empty());
        }
        m
    }

    /// A method return answering `call`: inherits the call's serial as
    /// the reply serial and the call's sender as the destination.
    pub fn new_method_return(call: &Message) -> (m: Message)
        requires
            call@.kind == MessageKind::MethodCall,
        ensures
            m@ == (MessageView {
                kind: MessageKind::MethodReturn,
                serial: 0,
                path: None,
                interface: None,
                member: None,
                destination: call@.sender,
                sender: None,
                reply_serial: Some(call@.serial),
                error_name: None,
                body: Seq::empty(),
            }),
            msg_wf(m@),
    {
        let m = Message {
            kind: MessageKind::MethodReturn,
            serial: 0,
            path: None,
            interface: None,
            member: None,
            destination: opt_bytes_clone(&call.sender),
            sender: None,
            reply_serial: Some(call.serial),
            error_name: None,
            body: Vec::new(),
        };
        proof {
            assert(m@.body =~= Seq::<ValueView>::empty());
        }
        m
    }

    /// An error reply answering `call`, carrying `error_name`; a
    /// human-readable description may be appended as a first argument.
    pub fn new_error(call: &Message, error_name: Vec<u8>) -> (m: Message)
        requires
            call@.kind == MessageKind::MethodCall,
        ensures
            m@ == (MessageView {
                kind: MessageKind::Error,
                serial: 0,
                path: None,
                interface: None,
                member: None,
                destination: call@.sender,
                sender: None,
                reply_serial: Some(call@.serial),
                error_name: Some(error_name@),
                body: Seq::empty(),
            }),
            msg_wf(m@),
    {
        let m = Message {
            kind: MessageKind::Error,
            serial: 0,
            path: None,
            interface: None,
            member: None,
            destination: opt_bytes_clone(&call.sender),
            sender: None,
            reply_serial: Some(call.serial),
            error_name: Some(error_name),
            body: Vec::new(),
        };
        proof {
            assert(m@.body =~= Seq::<ValueView>::empty());
        }
        m
    }

    /// Stamp the serial the connection assigned at send time.
    pub fn set_serial(&mut self, serial: u32)
        ensures
            final(self)@ == (MessageView { serial, ..old(self)@ }),
    {
        self.serial = serial;
    }

    /// Append one marshalled argument at the end of the body.
    pub fn append<T: Arg>(&mut self, x: &T)
        ensures
            final(self)@ == (MessageView { body: old(self)@.body.push(x.val_spec()), ..old(
                self,
            )@ }),
    {
        let ghost old_body = self.body@;
        let v = x.to_value();
        self.body.push(v);
        proof {
            lemma_vals_view_elts(old_body);
            lemma_vals_view_elts(self.body@);
            assert(vals_view(self.body@) =~= vals_view(old_body).push(x.val_spec()));
        }
    }

    /// The signature of the body as it stands: one complete type per
    /// argument, derived from the values alone.
    pub fn body_signature(&self) -> (r: crate::signature::Signature)
        ensures
            r@ == crate::value::types_of(self@.body),
    {
        let elems = crate::value::wire_types(&self.body);
        crate::signature::Signature { elems }
    }

    /// How many arguments the body holds.
    pub fn arg_count(&self) -> (r: usize)
        ensures
            r == self@.body.len(),
    {
        proof {
            lemma_vals_view_elts(self.body@);
        }
        self.body.len()
    }

    /// Read argument `idx` as native type `T`, independent of any
    /// other read.  Fails with `Exhausted` past the end of the body
    /// and with `TypeMismatch` when the value there marshals from no
    /// `T`.
    pub fn read_at<T: Arg>(&self, idx: usize) -> (r: Result<T, ReadError>)
        ensures
            (match r {
                Ok(x) => idx < self@.body.len() && x.val_spec() == self@.body[idx as int],
                Err(ReadError::Exhausted) => idx >= self@.body.len(),
                Err(ReadError::TypeMismatch) => idx < self@.body.len() && (forall|x: T|
                    x.val_spec() != self@.body[idx as int]),
            }),
    {
        proof {
            lemma_vals_view_elts(self.body@);
        }
        if idx >= self.body.len() {
            return Err(ReadError::Exhausted);
        }
        match T::from_value(&self.body[idx]) {
            Some(x) => Ok(x),
            None => Err(ReadError::TypeMismatch),
        }
    }
}

/// A single-pass read position over a message body.
pub struct BodyCursor {
    pub pos: usize,
}

impl BodyCursor {
    /// A cursor at the first argument.
    pub fn new() -> (c: BodyCursor)
        ensures
            c.pos == 0,
    {
        BodyCursor { pos: 0 }
    }

    /// Consume the next argument as native type `T`, advancing only on
    /// success.
    pub fn next<T: Arg>(&mut self, m: &Message) -> (r: Result<T, ReadError>)
        ensures
            (match r {
                Ok(x) => old(self).pos < m@.body.len() && x.val_spec() == m@.body[old(
                    self,
                ).pos as int] && final(self).pos == old(self).pos + 1,
                Err(ReadError::Exhausted) => final(self).pos == old(self).pos && old(self).pos
                    >= m@.body.len(),
                Err(ReadError::TypeMismatch) => final(self).pos == old(self).pos && old(self).pos
                    < m@.body.len() && (forall|x: T| x.val_spec() != m@.body[old(self).pos as int]),
            }),
    {
        let n = m.arg_count();
        if self.pos >= n {
            return Err(ReadError::Exhausted);
        }
        let r = m.read_at::<T>(self.pos);
        match r {
            Ok(x) => {
                self.pos = self.pos + 1;
                Ok(x)
            },
            Err(e) => Err(e),
        }
    }
}

} // verus!
