//! Match rules: filter predicates over message kind and header fields,
//! with the canonical text encoding used when registering interest
//! with the bus.
//!
//! A rule is a conjunction of its set fields; an unset field matches
//! anything, so the empty rule matches every message.  Path-namespace
//! matching respects path segments: `/a/b` covers `/a/b` and `/a/b/c`
//! but never `/a/bc`.  The first-argument filters apply only when the
//! first body argument is a string.

use vstd::prelude::*;

use crate::message::Message;
use crate::message::MessageKind;
use crate::message::MessageView;
use crate::value::Value;
use crate::value::ValueView;
use crate::value::bytes_eq;
use crate::value::lemma_vals_view_elts;

verus! {

/// The path separator.
pub const PATH_SEP: u8 = 47;

/// Field separator in the text encoding.
pub const RULE_COMMA: u8 = 44;

/// Key-value separator in the text encoding.
pub const RULE_EQUALS: u8 = 61;

/// Value quote in the text encoding.
pub const RULE_QUOTE: u8 = 39;

/// A filter over messages.  `path` and `path_namespace` are mutually
/// exclusive, as are `arg0` and `arg0_namespace`; the setters below
/// keep it so.
#[derive(Debug, PartialEq, Eq)]
pub struct MatchRule {
    pub kind: Option<MessageKind>,
    pub sender: Option<Vec<u8>>,
    pub interface: Option<Vec<u8>>,
    pub member: Option<Vec<u8>>,
    pub path: Option<Vec<u8>>,
    pub path_namespace: Option<Vec<u8>>,
    pub destination: Option<Vec<u8>>,
    pub arg0: Option<Vec<u8>>,
    pub arg0_namespace: Option<Vec<u8>>,
}

/// Mathematical model of a match rule.
#[verifier::ext_equal]
pub struct MatchRuleView {
    pub kind: Option<MessageKind>,
    pub sender: Option<Seq<u8>>,
    pub interface: Option<Seq<u8>>,
    pub member: Option<Seq<u8>>,
    pub path: Option<Seq<u8>>,
    pub path_namespace: Option<Seq<u8>>,
    pub destination: Option<Seq<u8>>,
    pub arg0: Option<Seq<u8>>,
    pub arg0_namespace: Option<Seq<u8>>,
}

impl View for MatchRule {
    type V = MatchRuleView;

    open spec fn view(&self) -> MatchRuleView {
        MatchRuleView {
            kind: self.kind,
            sender: crate::message::opt_bytes_view(self.sender),
            interface: crate::message::opt_bytes_view(self.interface),
            member: crate::message::opt_bytes_view(self.member),
            path: crate::message::opt_bytes_view(self.path),
            path_namespace: crate::message::opt_bytes_view(self.path_namespace),
            destination: crate::message::opt_bytes_view(self.destination),
            arg0: crate::message::opt_bytes_view(self.arg0),
            arg0_namespace: crate::message::opt_bytes_view(self.arg0_namespace),
        }
    }
}

/// Rule invariant: the mutually exclusive field pairs are not both set.
pub open spec fn rule_wf(r: MatchRuleView) -> bool {
    &&& !(r.path is Some && r.path_namespace is Some)
    &&& !(r.arg0 is Some && r.arg0_namespace is Some)
}

/// `p` is a leading run of `s`.
pub open spec fn is_prefix(p: Seq<u8>, s: Seq<u8>) -> bool {
    p.len() <= s.len() && s.subrange(0, p.len() as int) == p
}

/// Segment-respecting path-namespace containment: the path equals the
/// namespace, or extends it at a segment boundary.  The root namespace
/// contains every path.
pub open spec fn path_in_namespace(ns: Seq<u8>, p: Seq<u8>) -> bool {
    ns == p || (is_prefix(ns, p) && ns.len() < p.len() && (ns == seq![PATH_SEP] || p[ns.len() as int]
        == PATH_SEP))
}

/// The conjunction a rule imposes: every set field must agree with the
/// message; an unset field always agrees.
pub open spec fn rule_matches(r: MatchRuleView, m: MessageView) -> bool {
    &&& (r.kind matches Some(k) ==> m.kind == k)
    &&& (r.sender matches Some(s) ==> m.sender == Some(s))
    &&& (r.interface matches Some(s) ==> m.interface == Some(s))
    &&& (r.member matches Some(s) ==> m.member == Some(s))
    &&& (r.path matches Some(s) ==> m.path == Some(s))
    &&& (r.path_namespace matches Some(ns) ==> (m.path matches Some(p) && path_in_namespace(
        ns,
        p,
    )))
    &&& (r.destination matches Some(s) ==> m.destination == Some(s))
    &&& (r.arg0 matches Some(a) ==> m.body.len() > 0 && (m.body[0] matches ValueView::Str(t)
        && t == a))
    &&& (r.arg0_namespace matches Some(a) ==> m.body.len() > 0 && (m.body[0]
        matches ValueView::Str(t) && is_prefix(a, t)))
}

fn bytes_prefix(p: &Vec<u8>, s: &Vec<u8>) -> (r: bool)
    ensures
        r == is_prefix(p@, s@),
{
    if p.len() > s.len() {
        return false;
    }
    let mut k: usize = 0;
    while k < p.len()
        invariant
            0 <= k <= p@.len(),
            p@.len() <= s@.len(),
            forall|m: int| 0 <= m < k ==> p@[m] == s@[m],
        decreases p@.len() - k,
    {
        if p[k] != s[k] {
            proof {
                assert(s@.subrange(0, p@.len() as int)[k as int] == s@[k as int]);
            }
            return false;
        }
        k = k + 1;
    }
    proof {
        assert(s@.subrange(0, p@.len() as int) =~= p@);
    }
    true
}

fn path_ns_match(ns: &Vec<u8>, p: &Vec<u8>) -> (r: bool)
    ensures
        r == path_in_namespace(ns@, p@),
{
    if bytes_eq(ns, p) {
        return true;
    }
    if !bytes_prefix(ns, p) {
        return false;
    }
    if ns.len() >= p.len() {
        proof {
            assert(p@.subrange(0, ns@.len() as int) =~= p@);
            assert(false);
        }
        return false;
    }
    if ns.len() == 1 && ns[0] == PATH_SEP {
        proof {
            assert(ns@ =~= seq![PATH_SEP]);
        }
        return true;
    }
    if p[ns.len()] == PATH_SEP {
        return true;
    }
    false
}

fn opt_bytes_matches(field: &Option<Vec<u8>>, header: &Option<Vec<u8>>) -> (r: bool)
    ensures
        r == (crate::message::opt_bytes_view(*field) matches Some(s)
            ==> crate::message::opt_bytes_view(*header) == Some(s)),
{
    match field {
        None => true,
        Some(s) => match header {
            Some(h) => bytes_eq(s, h),
            None => false,
        },
    }
}

impl MatchRule {
    /// The empty rule, which matches every message.
    pub fn new() -> (r: MatchRule)
        ensures
            r@ == (MatchRuleView {
                kind: None,
                sender: None,
                interface: None,
                member: None,
                path: None,
                path_namespace: None,
                destination: None,
                arg0: None,
                arg0_namespace: None,
            }),
            rule_wf(r@),
    {
        MatchRule {
            kind: None,
            sender: None,
            interface: None,
            member: None,
            path: None,
            path_namespace: None,
            destination: None,
            arg0: None,
            arg0_namespace: None,
        }
    }

    /// Require a message kind.
    pub fn with_kind(&mut self, kind: MessageKind)
        ensures
            final(self)@ == (MatchRuleView { kind: Some(kind), ..old(self)@ }),
    {
        self.kind = Some(kind);
    }

    /// Require a sender.
    pub fn with_sender(&mut self, sender: Vec<u8>)
        ensures
            final(self)@ == (MatchRuleView { sender: Some(sender@), ..old(self)@ }),
    {
        self.sender = Some(sender);
    }

    /// Require an interface.
    pub fn with_interface(&mut self, interface: Vec<u8>)
        ensures
            final(self)@ == (MatchRuleView { interface: Some(interface@), ..old(self)@ }),
    {
        self.interface = Some(interface);
    }

    /// Require a member.
    pub fn with_member(&mut self, member: Vec<u8>)
        ensures
            final(self)@ == (MatchRuleView { member: Some(member@), ..old(self)@ }),
    {
        self.member = Some(member);
    }

    /// Require an exact path; clears any path namespace.
    pub fn with_path(&mut self, path: Vec<u8>)
        ensures
            final(self)@ == (MatchRuleView {
                path: Some(path@),
                path_namespace: None,
                ..old(self)@
            }),
    {
        self.path = Some(path);
        self.path_namespace = None;
    }

    /// Require a path namespace; clears any exact path.
    pub fn with_path_namespace(&mut self, ns: Vec<u8>)
        ensures
            final(self)@ == (MatchRuleView {
                path: None,
                path_namespace: Some(ns@),
                ..old(self)@
            }),
    {
        self.path = None;
        self.path_namespace = Some(ns);
    }

    /// Require a destination.
    pub fn with_destination(&mut self, destination: Vec<u8>)
        ensures
            final(self)@ == (MatchRuleView { destination: Some(destination@), ..old(self)@ }),
    {
        self.destination = Some(destination);
    }

    /// Require an exact first string argument; clears any namespace
    /// form.
    pub fn with_arg0(&mut self, arg0: Vec<u8>)
        ensures
            final(self)@ == (MatchRuleView {
                arg0: Some(arg0@),
                arg0_namespace: None,
                ..old(self)@
            }),
    {
        self.arg0 = Some(arg0);
        self.arg0_namespace = None;
    }

    /// Require a prefix of the first string argument; clears any exact
    /// form.
    pub fn with_arg0_namespace(&mut self, ns: Vec<u8>)
        ensures
            final(self)@ == (MatchRuleView {
                arg0: None,
                arg0_namespace: Some(ns@),
                ..old(self)@
            }),
    {
        self.arg0 = None;
        self.arg0_namespace = Some(ns);
    }

    /// Whether this rule accepts the message.
    pub fn matches(&self, m: &Message) -> (r: bool)
        ensures
            r == rule_matches(self@, m@),
    {
        match &self.kind {
            Some(k) => {
                if m.kind != *k {
                    return false;
                }
            },
            None => {},
        }
        if !opt_bytes_matches(&self.sender, &m.sender) {
            return false;
        }
        if !opt_bytes_matches(&self.interface, &m.interface) {
            return false;
        }
        if !opt_bytes_matches(&self.member, &m.member) {
            return false;
        }
        if !opt_bytes_matches(&self.path, &m.path) {
            return false;
        }
        match &self.path_namespace {
            Some(ns) => match &m.path {
                Some(p) => {
                    if !path_ns_match(ns, p) {
                        return false;
                    }
                },
                None => {
                    return false;
                },
            },
            None => {},
        }
        if !opt_bytes_matches(&self.destination, &m.destination) {
            return false;
        }
        match &self.arg0 {
            Some(a) => {
                if m.body.len() == 0 {
                    proof {
                        lemma_vals_view_elts(m.body@);
                    }
                    return false;
                }
                proof {
                    lemma_vals_view_elts(m.body@);
                }
                match &m.body[0] {
                    Value::Str(t) => {
                        if !bytes_eq(a, t) {
                            return false;
                        }
                    },
                    _ => {
                        return false;
                    },
                }
            },
            None => {},
        }
        match &self.arg0_namespace {
            Some(a) => {
                if m.body.len() == 0 {
                    proof {
                        lemma_vals_view_elts(m.body@);
                    }
                    return false;
                }
                proof {
                    lemma_vals_view_elts(m.body@);
                }
                match &m.body[0] {
                    Value::Str(t) => {
                        if !bytes_prefix(a, t) {
                            return false;
                        }
                    },
                    _ => {
                        return false;
                    },
                }
            },
            None => {},
        }
        proof {
            lemma_vals_view_elts(m.body@);
        }
        true
    }

    /// Rule equivalence: the normalized field sets are equal,
    /// independently of how either rule was put together.
    pub fn same_rule(&self, other: &MatchRule) -> (r: bool)
        ensures
            r == (self@ == other@),
    {
        let kind_same = match (&self.kind, &other.kind) {
            (None, None) => true,
            (Some(a), Some(b)) => *a == *b,
            _ => false,
        };
        if !kind_same {
            return false;
        }
        if !opt_bytes_same(&self.sender, &other.sender) {
            return false;
        }
        if !opt_bytes_same(&self.interface, &other.interface) {
            return false;
        }
        if !opt_bytes_same(&self.member, &other.member) {
            return false;
        }
        if !opt_bytes_same(&self.path, &other.path) {
            return false;
        }
        if !opt_bytes_same(&self.path_namespace, &other.path_namespace) {
            return false;
        }
        if !opt_bytes_same(&self.destination, &other.destination) {
            return false;
        }
        if !opt_bytes_same(&self.arg0, &other.arg0) {
            return false;
        }
        if !opt_bytes_same(&self.arg0_namespace, &other.arg0_namespace) {
            return false;
        }
        proof {
            assert(self@ =~= other@);
        }
        true
    }
}

fn opt_bytes_same(a: &Option<Vec<u8>>, b: &Option<Vec<u8>>) -> (r: bool)
    ensures
        r == (crate::message::opt_bytes_view(*a) == crate::message::opt_bytes_view(*b)),
{
    match (a, b) {
        (None, None) => true,
        (Some(x), Some(y)) => bytes_eq(x, y),
        _ => false,
    }
}


pub open spec fn key_type_text() -> Seq<u8> {
    seq![116u8, 121u8, 112u8, 101u8]
}

fn push_key_type(out: &mut Vec<u8>)
    ensures
        final(out)@ == old(out)@ + key_type_text(),
{
    out.push(116);
    out.push(121);
    out.push(112);
    out.push(101);
    proof {
        assert(out@ =~= old(out)@ + key_type_text());
    }
}

pub open spec fn key_sender_text() -> Seq<u8> {
    seq![115u8, 101u8, 110u8, 100u8, 101u8, 114u8]
}

fn push_key_sender(out: &mut Vec<u8>)
    ensures
        final(out)@ == old(out)@ + key_sender_text(),
{
    out.push(115);
    out.push(101);
    out.push(110);
    out.push(100);
    out.push(101);
    out.push(114);
    proof {
        assert(out@ =~= old(out)@ + key_sender_text());
    }
}

pub open spec fn key_interface_text() -> Seq<u8> {
    seq![105u8, 110u8, 116u8, 101u8, 114u8, 102u8, 97u8, 99u8, 101u8]
}

fn push_key_interface(out: &mut Vec<u8>)
    ensures
        final(out)@ == old(out)@ + key_interface_text(),
{
    out.push(105);
    out.push(110);
    out.push(116);
    out.push(101);
    out.push(114);
    out.push(102);
    out.push(97);
    out.push(99);
    out.push(101);
    proof {
        assert(out@ =~= old(out)@ + key_interface_text());
    }
}

pub open spec fn key_member_text() -> Seq<u8> {
    seq![109u8, 101u8, 109u8, 98u8, 101u8, 114u8]
}

fn push_key_member(out: &mut Vec<u8>)
    ensures
        final(out)@ == old(out)@ + key_member_text(),
{
    out.push(109);
    out.push(101);
    out.push(109);
    out.push(98);
    out.push(101);
    out.push(114);
    proof {
        assert(out@ =~= old(out)@ + key_member_text());
    }
}

pub open spec fn key_path_text() -> Seq<u8> {
    seq![112u8, 97u8, 116u8, 104u8]
}

fn push_key_path(out: &mut Vec<u8>)
    ensures
        final(out)@ == old(out)@ + key_path_text(),
{
    out.push(112);
    out.push(97);
    out.push(116);
    out.push(104);
    proof {
        assert(out@ =~= old(out)@ + key_path_text());
    }
}

pub open spec fn key_path_namespace_text() -> Seq<u8> {
    seq![112u8, 97u8, 116u8, 104u8, 95u8, 110u8, 97u8, 109u8, 101u8, 115u8, 112u8, 97u8, 99u8, 101u8]
}

fn push_key_path_namespace(out: &mut Vec<u8>)
    ensures
        final(out)@ == old(out)@ + key_path_namespace_text(),
{
    out.push(112);
    out.push(97);
    out.push(116);
    out.push(104);
    out.push(95);
    out.push(110);
    out.push(97);
    out.push(109);
    out.push(101);
    out.push(115);
    out.push(112);
    out.push(97);
    out.push(99);
    out.push(101);
    proof {
        assert(out@ =~= old(out)@ + key_path_namespace_text());
    }
}

pub open spec fn key_destination_text() -> Seq<u8> {
    seq![100u8, 101u8, 115u8, 116u8, 105u8, 110u8, 97u8, 116u8, 105u8, 111u8, 110u8]
}

fn push_key_destination(out: &mut Vec<u8>)
    ensures
        final(out)@ == old(out)@ + key_destination_text(),
{
    out.push(100);
    out.push(101);
    out.push(115);
    out.push(116);
    out.push(105);
    out.push(110);
    out.push(97);
    out.push(116);
    out.push(105);
    out.push(111);
    out.push(110);
    proof {
        assert(out@ =~= old(out)@ + key_destination_text());
    }
}

pub open spec fn key_arg0_text() -> Seq<u8> {
    seq![97u8, 114u8, 103u8, 48u8]
}

fn push_key_arg0(out: &mut Vec<u8>)
    ensures
        final(out)@ == old(out)@ + key_arg0_text(),
{
    out.push(97);
    out.push(114);
    out.push(103);
    out.push(48);
    proof {
        assert(out@ =~= old(out)@ + key_arg0_text());
    }
}

pub open spec fn key_arg0_namespace_text() -> Seq<u8> {
    seq![97u8, 114u8, 103u8, 48u8, 110u8, 97u8, 109u8, 101u8, 115u8, 112u8, 97u8, 99u8, 101u8]
}

fn push_key_arg0_namespace(out: &mut Vec<u8>)
    ensures
        final(out)@ == old(out)@ + key_arg0_namespace_text(),
{
    out.push(97);
    out.push(114);
    out.push(103);
    out.push(48);
    out.push(110);
    out.push(97);
    out.push(109);
    out.push(101);
    out.push(115);
    out.push(112);
    out.push(97);
    out.push(99);
    out.push(101);
    proof {
        assert(out@ =~= old(out)@ + key_arg0_namespace_text());
    }
}

pub open spec fn kind_method_call_text() -> Seq<u8> {
    seq![109u8, 101u8, 116u8, 104u8, 111u8, 100u8, 95u8, 99u8, 97u8, 108u8, 108u8]
}

fn push_kind_method_call(out: &mut Vec<u8>)
    ensures
        final(out)@ == old(out)@ + kind_method_call_text(),
{
    out.push(109);
    out.push(101);
    out.push(116);
    out.push(104);
    out.push(111);
    out.push(100);
    out.push(95);
    out.push(99);
    out.push(97);
    out.push(108);
    out.push(108);
    proof {
        assert(out@ =~= old(out)@ + kind_method_call_text());
    }
}

pub open spec fn kind_method_return_text() -> Seq<u8> {
    seq![109u8, 101u8, 116u8, 104u8, 111u8, 100u8, 95u8, 114u8, 101u8, 116u8, 117u8, 114u8, 110u8]
}

fn push_kind_method_return(out: &mut Vec<u8>)
    ensures
        final(out)@ == old(out)@ + kind_method_return_text(),
{
    out.push(109);
    out.push(101);
    out.push(116);
    out.push(104);
    out.push(111);
    out.push(100);
    out.push(95);
    out.push(114);
    out.push(101);
    out.push(116);
    out.push(117);
    out.push(114);
    out.push(110);
    proof {
        assert(out@ =~= old(out)@ + kind_method_return_text());
    }
}

pub open spec fn kind_signal_text() -> Seq<u8> {
    seq![115u8, 105u8, 103u8, 110u8, 97u8, 108u8]
}

fn push_kind_signal(out: &mut Vec<u8>)
    ensures
        final(out)@ == old(out)@ + kind_signal_text(),
{
    out.push(115);
    out.push(105);
    out.push(103);
    out.push(110);
    out.push(97);
    out.push(108);
    proof {
        assert(out@ =~= old(out)@ + kind_signal_text());
    }
}

pub open spec fn kind_error_text() -> Seq<u8> {
    seq![101u8, 114u8, 114u8, 111u8, 114u8]
}

fn push_kind_error(out: &mut Vec<u8>)
    ensures
        final(out)@ == old(out)@ + kind_error_text(),
{
    out.push(101);
    out.push(114);
    out.push(114);
    out.push(111);
    out.push(114);
    proof {
        assert(out@ =~= old(out)@ + kind_error_text());
    }
}


/// One `,key='value'` segment of the text encoding, empty for an
/// unset field.
pub open spec fn seg_text(key: Seq<u8>, val: Option<Seq<u8>>) -> Seq<u8> {
    match val {
        None => Seq::empty(),
        Some(v) => seq![RULE_COMMA] + key + seq![RULE_EQUALS, RULE_QUOTE] + v + seq![RULE_QUOTE],
    }
}

/// The canonical text of a message kind.
pub open spec fn kind_text(k: MessageKind) -> Seq<u8> {
    match k {
        MessageKind::MethodCall => kind_method_call_text(),
        MessageKind::MethodReturn => kind_method_return_text(),
        MessageKind::Signal => kind_signal_text(),
        MessageKind::Error => kind_error_text(),
    }
}

pub open spec fn kind_seg_text(k: Option<MessageKind>) -> Seq<u8> {
    match k {
        None => Seq::empty(),
        Some(k) => seg_text(key_type_text(), Some(kind_text(k))),
    }
}

/// The canonical comma-joined `key='value'` encoding, with the fields
/// in a fixed order so equal rules serialize identically.
pub open spec fn rule_text(r: MatchRuleView) -> Seq<u8> {
    let all = kind_seg_text(r.kind) + seg_text(key_sender_text(), r.sender) + seg_text(
        key_interface_text(),
        r.interface,
    ) + seg_text(key_member_text(), r.member) + seg_text(key_path_text(), r.path) + seg_text(
        key_path_namespace_text(),
        r.path_namespace,
    ) + seg_text(key_destination_text(), r.destination) + seg_text(key_arg0_text(), r.arg0)
        + seg_text(key_arg0_namespace_text(), r.arg0_namespace);
    if all.len() == 0 {
        all
    } else {
        all.subrange(1, all.len() as int)
    }
}

/// The keys of the text encoding.
#[derive(Clone, Copy, Debug, PartialEq, Eq, Structural)]
pub enum RuleKey {
    Sender,
    Interface,
    Member,
    Path,
    PathNamespace,
    Destination,
    Arg0,
    Arg0Namespace,
}

pub open spec fn rule_key_text(k: RuleKey) -> Seq<u8> {
    match k {
        RuleKey::Sender => key_sender_text(),
        RuleKey::Interface => key_interface_text(),
        RuleKey::Member => key_member_text(),
        RuleKey::Path => key_path_text(),
        RuleKey::PathNamespace => key_path_namespace_text(),
        RuleKey::Destination => key_destination_text(),
        RuleKey::Arg0 => key_arg0_text(),
        RuleKey::Arg0Namespace => key_arg0_namespace_text(),
    }
}

fn push_rule_key(out: &mut Vec<u8>, k: RuleKey)
    ensures
        final(out)@ == old(out)@ + rule_key_text(k),
{
    match k {
        RuleKey::Sender => push_key_sender(out),
        RuleKey::Interface => push_key_interface(out),
        RuleKey::Member => push_key_member(out),
        RuleKey::Path => push_key_path(out),
        RuleKey::PathNamespace => push_key_path_namespace(out),
        RuleKey::Destination => push_key_destination(out),
        RuleKey::Arg0 => push_key_arg0(out),
        RuleKey::Arg0Namespace => push_key_arg0_namespace(out),
    }
}

fn push_bytes(out: &mut Vec<u8>, v: &Vec<u8>)
    ensures
        final(out)@ == old(out)@ + v@,
{
    let mut k: usize = 0;
    while k < v.len()
        invariant
            0 <= k <= v@.len(),
            out@ == old(out)@ + v@.subrange(0, k as int),
        decreases v@.len() - k,
    {
        out.push(v[k]);
        proof {
            assert(out@ =~= old(out)@ + v@.subrange(0, k as int + 1));
        }
        k = k + 1;
    }
    proof {
        assert(old(out)@ + v@.subrange(0, v@.len() as int) =~= old(out)@ + v@);
    }
}

fn push_seg(out: &mut Vec<u8>, k: RuleKey, val: &Option<Vec<u8>>)
    ensures
        final(out)@ == old(out)@ + seg_text(
            rule_key_text(k),
            crate::message::opt_bytes_view(*val),
        ),
{
    match val {
        None => {
            proof {
                assert(out@ =~= old(out)@ + seg_text(
                    rule_key_text(k),
                    crate::message::opt_bytes_view(*val),
                ));
            }
        },
        Some(v) => {
            out.push(RULE_COMMA);
            push_rule_key(out, k);
            out.push(RULE_EQUALS);
            out.push(RULE_QUOTE);
            push_bytes(out, v);
            out.push(RULE_QUOTE);
            proof {
                assert(out@ =~= old(out)@ + seg_text(
                    rule_key_text(k),
                    crate::message::opt_bytes_view(*val),
                ));
            }
        },
    }
}

fn push_kind_seg(out: &mut Vec<u8>, k: &Option<MessageKind>)
    ensures
        final(out)@ == old(out)@ + kind_seg_text(*k),
{
    match k {
        None => {
            proof {
                assert(out@ =~= old(out)@ + kind_seg_text(*k));
            }
        },
        Some(kind) => {
            out.push(RULE_COMMA);
            push_key_type(out);
            out.push(RULE_EQUALS);
            out.push(RULE_QUOTE);
            match kind {
                MessageKind::MethodCall => push_kind_method_call(out),
                MessageKind::MethodReturn => push_kind_method_return(out),
                MessageKind::Signal => push_kind_signal(out),
                MessageKind::Error => push_kind_error(out),
            }
            out.push(RULE_QUOTE);
            proof {
                assert(out@ =~= old(out)@ + kind_seg_text(*k));
            }
        },
    }
}

/// Parse-time failure: the text is not a valid rule encoding.
#[derive(Clone, Copy, Debug, PartialEq, Eq, Structural)]
pub enum RuleParseError {
    MalformedRule,
}

/// Position of the first occurrence of `c` at or after `i`.
pub open spec fn scan_byte(s: Seq<u8>, i: int, c: u8) -> Option<int>
    decreases s.len() - i,
{
    if i < 0 || i >= s.len() {
        None
    } else if s[i] == c {
        Some(i)
    } else {
        scan_byte(s, i + 1, c)
    }
}

/// The message kind a kind text denotes.
pub open spec fn kind_of_text(v: Seq<u8>) -> Option<MessageKind> {
    if v == kind_method_call_text() {
        Some(MessageKind::MethodCall)
    } else if v == kind_method_return_text() {
        Some(MessageKind::MethodReturn)
    } else if v == kind_signal_text() {
        Some(MessageKind::Signal)
    } else if v == kind_error_text() {
        Some(MessageKind::Error)
    } else {
        None
    }
}

/// Record one parsed `key='value'` field; a key that is unknown, or
/// set twice, rejects the whole text.
pub open spec fn rule_with_field(r: MatchRuleView, key: Seq<u8>, val: Seq<u8>) -> Option<
    MatchRuleView,
> {
    if key == key_type_text() {
        match kind_of_text(val) {
            Some(k) => if r.kind is Some {
                None
            } else {
                Some(MatchRuleView { kind: Some(k), ..r })
            },
            None => None,
        }
    } else if key == key_sender_text() {
        if r.sender is Some {
            None
        } else {
            Some(MatchRuleView { sender: Some(val), ..r })
        }
    } else if key == key_interface_text() {
        if r.interface is Some {
            None
        } else {
            Some(MatchRuleView { interface: Some(val), ..r })
        }
    } else if key == key_member_text() {
        if r.member is Some {
            None
        } else {
            Some(MatchRuleView { member: Some(val), ..r })
        }
    } else if key == key_path_text() {
        if r.path is Some {
            None
        } else {
            Some(MatchRuleView { path: Some(val), ..r })
        }
    } else if key == key_path_namespace_text() {
        if r.path_namespace is Some {
            None
        } else {
            Some(MatchRuleView { path_namespace: Some(val), ..r })
        }
    } else if key == key_destination_text() {
        if r.destination is Some {
            None
        } else {
            Some(MatchRuleView { destination: Some(val), ..r })
        }
    } else if key == key_arg0_text() {
        if r.arg0 is Some {
            None
        } else {
            Some(MatchRuleView { arg0: Some(val), ..r })
        }
    } else if key == key_arg0_namespace_text() {
        if r.arg0_namespace is Some {
            None
        } else {
            Some(MatchRuleView { arg0_namespace: Some(val), ..r })
        }
    } else {
        None
    }
}

/// The all-unset rule.
pub open spec fn empty_rule() -> MatchRuleView {
    MatchRuleView {
        kind: None,
        sender: None,
        interface: None,
        member: None,
        path: None,
        path_namespace: None,
        destination: None,
        arg0: None,
        arg0_namespace: None,
    }
}

/// Specification of the parse of comma-joined `key='value'` segments
/// starting at `i`, fields in any order, each at most once.
pub open spec fn parse_rule_from(s: Seq<u8>, i: int, acc: MatchRuleView) -> Option<MatchRuleView>
    decreases s.len() - i,
{
    match scan_byte(s, i, RULE_EQUALS) {
        None => None,
        Some(e) => if e + 1 >= s.len() || s[e + 1] != RULE_QUOTE {
            None
        } else {
            match scan_byte(s, e + 2, RULE_QUOTE) {
                None => None,
                Some(q) => match rule_with_field(acc, s.subrange(i, e), s.subrange(e + 2, q)) {
                    None => None,
                    Some(acc2) => if q + 1 == s.len() {
                        Some(acc2)
                    } else if q + 1 < s.len() && s[q + 1] == RULE_COMMA {
                        if q + 2 <= i {
                            None
                        } else {
                            parse_rule_from(s, q + 2, acc2)
                        }
                    } else {
                        None
                    },
                },
            }
        },
    }
}

/// Specification of rule parsing: the empty text is the empty rule;
/// otherwise the segments must cover the text exactly, and the result
/// must respect the mutual-exclusion invariant.
pub open spec fn parse_rule(s: Seq<u8>) -> Option<MatchRuleView> {
    let r = if s.len() == 0 {
        Some(empty_rule())
    } else {
        parse_rule_from(s, 0, empty_rule())
    };
    match r {
        Some(rv) => if rule_wf(rv) {
            Some(rv)
        } else {
            None
        },
        None => None,
    }
}

fn scan_byte_at(s: &Vec<u8>, i: usize, c: u8) -> (r: Option<usize>)
    ensures
        (match r {
            Some(k) => scan_byte(s@, i as int, c) == Some(k as int) && i <= k < s@.len()
                && s@[k as int] == c,
            None => scan_byte(s@, i as int, c) is None,
        }),
{
    let mut k: usize = i;
    if k > s.len() {
        return None;
    }
    while k < s.len()
        invariant
            i <= k <= s@.len(),
            scan_byte(s@, i as int, c) == scan_byte(s@, k as int, c),
        decreases s@.len() - k,
    {
        if s[k] == c {
            return Some(k);
        }
        k = k + 1;
    }
    None
}

fn sub_vec(s: &Vec<u8>, a: usize, b: usize) -> (r: Vec<u8>)
    requires
        a <= b <= s@.len(),
    ensures
        r@ == s@.subrange(a as int, b as int),
{
    let mut r: Vec<u8> = Vec::new();
    let mut k: usize = a;
    while k < b
        invariant
            a <= k <= b <= s@.len(),
            r@ == s@.subrange(a as int, k as int),
        decreases b - k,
    {
        r.push(s[k]);
        proof {
            assert(r@ =~= s@.subrange(a as int, k as int + 1));
        }
        k = k + 1;
    }
    r
}

fn rule_key_vec(k: RuleKey) -> (r: Vec<u8>)
    ensures
        r@ == rule_key_text(k),
{
    let mut v: Vec<u8> = Vec::new();
    push_rule_key(&mut v, k);
    v
}

fn apply_field(acc: MatchRule, key: &Vec<u8>, val: Vec<u8>) -> (r: Option<MatchRule>)
    ensures
        (match r {
            Some(r2) => rule_with_field(acc@, key@, val@) == Some(r2@),
            None => rule_with_field(acc@, key@, val@) is None,
        }),
{
    let mut acc = acc;
    let ghost acc0 = acc@;
    let mut type_key: Vec<u8> = Vec::new();
    push_key_type(&mut type_key);
    if bytes_eq(key, &type_key) {
        let mut mc: Vec<u8> = Vec::new();
        push_kind_method_call(&mut mc);
        let mut mr: Vec<u8> = Vec::new();
        push_kind_method_return(&mut mr);
        let mut sg: Vec<u8> = Vec::new();
        push_kind_signal(&mut sg);
        let mut er: Vec<u8> = Vec::new();
        push_kind_error(&mut er);
        let kind = if bytes_eq(&val, &mc) {
            Some(MessageKind::MethodCall)
        } else if bytes_eq(&val, &mr) {
            Some(MessageKind::MethodReturn)
        } else if bytes_eq(&val, &sg) {
            Some(MessageKind::Signal)
        } else if bytes_eq(&val, &er) {
            Some(MessageKind::Error)
        } else {
            None
        };
        match kind {
            None => None,
            Some(k) => {
                if acc.kind.is_some() {
                    return None;
                }
                acc.kind = Some(k);
                proof {
                    assert(acc@ =~= (MatchRuleView { kind: Some(k), ..acc0 }));
                }
                Some(acc)
            },
        }
    } else if bytes_eq(key, &rule_key_vec(RuleKey::Sender)) {
        if acc.sender.is_some() {
            return None;
        }
        let ghost vv = val@;
        acc.sender = Some(val);
        proof {
            assert(acc@ =~= (MatchRuleView { sender: Some(vv), ..acc0 }));
        }
        Some(acc)
    } else if bytes_eq(key, &rule_key_vec(RuleKey::Interface)) {
        if acc.interface.is_some() {
            return None;
        }
        let ghost vv = val@;
        acc.interface = Some(val);
        proof {
            assert(acc@ =~= (MatchRuleView { interface: Some(vv), ..acc0 }));
        }
        Some(acc)
    } else if bytes_eq(key, &rule_key_vec(RuleKey::Member)) {
        if acc.member.is_some() {
            return None;
        }
        let ghost vv = val@;
        acc.member = Some(val);
        proof {
            assert(acc@ =~= (MatchRuleView { member: Some(vv), ..acc0 }));
        }
        Some(acc)
    } else if bytes_eq(key, &rule_key_vec(RuleKey::Path)) {
        if acc.path.is_some() {
            return None;
        }
        let ghost vv = val@;
        acc.path = Some(val);
        proof {
            assert(acc@ =~= (MatchRuleView { path: Some(vv), ..acc0 }));
        }
        Some(acc)
    } else if bytes_eq(key, &rule_key_vec(RuleKey::PathNamespace)) {
        if acc.path_namespace.is_some() {
            return None;
        }
        let ghost vv = val@;
        acc.path_namespace = Some(val);
        proof {
            assert(acc@ =~= (MatchRuleView { path_namespace: Some(vv), ..acc0 }));
        }
        Some(acc)
    } else if bytes_eq(key, &rule_key_vec(RuleKey::Destination)) {
        if acc.destination.is_some() {
            return None;
        }
        let ghost vv = val@;
        acc.destination = Some(val);
        proof {
            assert(acc@ =~= (MatchRuleView { destination: Some(vv), ..acc0 }));
        }
        Some(acc)
    } else if bytes_eq(key, &rule_key_vec(RuleKey::Arg0)) {
        if acc.arg0.is_some() {
            return None;
        }
        let ghost vv = val@;
        acc.arg0 = Some(val);
        proof {
            assert(acc@ =~= (MatchRuleView { arg0: Some(vv), ..acc0 }));
        }
        Some(acc)
    } else if bytes_eq(key, &rule_key_vec(RuleKey::Arg0Namespace)) {
        if acc.arg0_namespace.is_some() {
            return None;
        }
        let ghost vv = val@;
        acc.arg0_namespace = Some(val);
        proof {
            assert(acc@ =~= (MatchRuleView { arg0_namespace: Some(vv), ..acc0 }));
        }
        Some(acc)
    } else {
        None
    }
}

impl MatchRule {
    /// Parse the comma-joined `key='value'` encoding; fields may come
    /// in any order, each at most once, and the mutually exclusive
    /// pairs may not both appear.
    pub fn parse(text: &Vec<u8>) -> (r: Result<MatchRule, RuleParseError>)
        ensures
            (match r {
                Ok(rule) => parse_rule(text@) == Some(rule@) && rule_wf(rule@),
                Err(e) => parse_rule(text@) is None && e == RuleParseError::MalformedRule,
            }),
    {
        let mut acc = MatchRule::new();
        proof {
            assert(acc@ =~= empty_rule());
        }
        if text.len() == 0 {
            return Ok(acc);
        }
        let mut i: usize = 0;
        loop
            invariant
                0 <= i <= text@.len(),
                text@.len() > 0,
                parse_rule_from(text@, 0, empty_rule()) == parse_rule_from(text@, i as int, acc@),
            decreases text@.len() - i,
        {
            let n = text.len();
            let e = match scan_byte_at(text, i, RULE_EQUALS) {
                None => {
                    return Err(RuleParseError::MalformedRule);
                },
                Some(e) => e,
            };
            if e + 1 >= n {
                return Err(RuleParseError::MalformedRule);
            }
            if text[e + 1] != RULE_QUOTE {
                return Err(RuleParseError::MalformedRule);
            }
            let q = match scan_byte_at(text, e + 2, RULE_QUOTE) {
                None => {
                    return Err(RuleParseError::MalformedRule);
                },
                Some(q) => q,
            };
            let key = sub_vec(text, i, e);
            let val = sub_vec(text, e + 2, q);
            acc = match apply_field(acc, &key, val) {
                None => {
                    return Err(RuleParseError::MalformedRule);
                },
                Some(a) => a,
            };
            if q + 1 == text.len() {
                if acc.path.is_some() && acc.path_namespace.is_some() {
                    return Err(RuleParseError::MalformedRule);
                }
                if acc.arg0.is_some() && acc.arg0_namespace.is_some() {
                    return Err(RuleParseError::MalformedRule);
                }
                return Ok(acc);
            }
            if text[q + 1] != RULE_COMMA {
                return Err(RuleParseError::MalformedRule);
            }
            i = q + 2;
        }
    }

    /// Render the canonical text of this rule, for registration with
    /// the bus.
    pub fn to_text(&self) -> (r: Vec<u8>)
        ensures
            r@ == rule_text(self@),
    {
        let mut all: Vec<u8> = Vec::new();
        push_kind_seg(&mut all, &self.kind);
        push_seg(&mut all, RuleKey::Sender, &self.sender);
        push_seg(&mut all, RuleKey::Interface, &self.interface);
        push_seg(&mut all, RuleKey::Member, &self.member);
        push_seg(&mut all, RuleKey::Path, &self.path);
        push_seg(&mut all, RuleKey::PathNamespace, &self.path_namespace);
        push_seg(&mut all, RuleKey::Destination, &self.destination);
        push_seg(&mut all, RuleKey::Arg0, &self.arg0);
        push_seg(&mut all, RuleKey::Arg0Namespace, &self.arg0_namespace);
        let ghost whole = kind_seg_text(self@.kind) + seg_text(key_sender_text(), self@.sender)
            + seg_text(key_interface_text(), self@.interface) + seg_text(
            key_member_text(),
            self@.member,
        ) + seg_text(key_path_text(), self@.path) + seg_text(
            key_path_namespace_text(),
            self@.path_namespace,
        ) + seg_text(key_destination_text(), self@.destination) + seg_text(
            key_arg0_text(),
            self@.arg0,
        ) + seg_text(key_arg0_namespace_text(), self@.arg0_namespace);
        proof {
            assert(all@ =~= whole);
        }
        if all.len() == 0 {
            return all;
        }
        all.remove(0);
        proof {
            assert(all@ =~= whole.subrange(1, whole.len() as int));
        }
        all
    }
}

} // verus!
