//! Message routing: a hierarchical object table of registered method
//! handlers plus an ordered list of match-rule subscriptions.
//!
//! The dispatcher decides *what* runs, never *how*: handlers are named
//! by opaque tokens, routing a method call yields either the token to
//! invoke or a ready error reply, and completing an invocation turns
//! the handler's outcome into the return or error message.  A method
//! call is therefore always answered — with exactly one of a return or
//! an error — and a call whose member is defined by more than one
//! interface at its path, when no interface was named, is rejected as
//! ambiguous rather than resolved by an arbitrary pick.  Signals fan
//! out to every subscription whose rule matches, in registration
//! order.

use vstd::prelude::*;

use crate::matchrule::MatchRule;
use crate::matchrule::MatchRuleView;
use crate::matchrule::rule_matches;
use crate::message::Message;
use crate::message::MessageKind;
use crate::message::MessageView;
use crate::message::msg_wf;
use crate::value::Value;
use crate::value::ValueView;
use crate::value::bytes_eq;
use crate::value::lemma_vals_view_elts;
use crate::value::vals_view;

verus! {

/// Why the dispatcher could not hand a method call to a handler.
#[derive(Clone, Copy, Debug, PartialEq, Eq, Structural)]
pub enum DispatchError {
    UnknownObject,
    UnknownMethod,
    AmbiguousMethod,
}

/// The routing decision for a method call.
#[derive(Clone, Copy, Debug, PartialEq, Eq, Structural)]
pub enum MethodAction {
    Invoke(u64),
    Fail(DispatchError),
}

/// What a handler produced: a reply body, or an error name with an
/// optional human-readable description.
#[derive(Debug, PartialEq, Eq)]
pub enum HandlerOutcome {
    Success(Vec<Value>),
    Failure(Vec<u8>, Option<Vec<u8>>),
}

/// Mathematical model of a handler outcome.
#[verifier::ext_equal]
pub enum HandlerOutcomeView {
    Success(Seq<ValueView>),
    Failure(Seq<u8>, Option<Seq<u8>>),
}

pub open spec fn outcome_view(o: HandlerOutcome) -> HandlerOutcomeView {
    match o {
        HandlerOutcome::Success(vals) => HandlerOutcomeView::Success(vals_view(vals@)),
        HandlerOutcome::Failure(name, text) => HandlerOutcomeView::Failure(
            name@,
            crate::message::opt_bytes_view(text),
        ),
    }
}

/// One registered method: an interface and member name, and the token
/// of the handler that serves it.
#[derive(Debug, PartialEq, Eq)]
pub struct MethodEntry {
    pub interface: Vec<u8>,
    pub member: Vec<u8>,
    pub handler: u64,
}

/// Mathematical model of a method entry.
#[verifier::ext_equal]
pub struct MethodEntryView {
    pub interface: Seq<u8>,
    pub member: Seq<u8>,
    pub handler: u64,
}

impl View for MethodEntry {
    type V = MethodEntryView;

    open spec fn view(&self) -> MethodEntryView {
        MethodEntryView { interface: self.interface@, member: self.member@, handler: self.handler }
    }
}

/// One object path with its methods and an optional fallback handler.
#[derive(Debug, PartialEq, Eq)]
pub struct ObjectEntry {
    pub path: Vec<u8>,
    pub methods: Vec<MethodEntry>,
    pub fallback: Option<u64>,
}

/// Mathematical model of an object entry.
#[verifier::ext_equal]
pub struct ObjectEntryView {
    pub path: Seq<u8>,
    pub methods: Seq<MethodEntryView>,
    pub fallback: Option<u64>,
}

pub open spec fn entries_view(s: Seq<MethodEntry>) -> Seq<MethodEntryView>
    decreases s,
{
    if s.len() == 0 {
        Seq::empty()
    } else {
        seq![s[0]@] + entries_view(s.subrange(1, s.len() as int))
    }
}

pub proof fn lemma_entries_view_elts(s: Seq<MethodEntry>)
    ensures
        entries_view(s).len() == s.len(),
        forall|i: int| 0 <= i < s.len() ==> entries_view(s)[i] == s[i]@,
    decreases s,
{
    if s.len() != 0 {
        lemma_entries_view_elts(s.subrange(1, s.len() as int));
    }
}

impl View for ObjectEntry {
    type V = ObjectEntryView;

    open spec fn view(&self) -> ObjectEntryView {
        ObjectEntryView {
            path: self.path@,
            methods: entries_view(self.methods@),
            fallback: self.fallback,
        }
    }
}

/// One signal subscription: a rule and the subscriber's token.
#[derive(Debug, PartialEq, Eq)]
pub struct Subscription {
    pub rule: MatchRule,
    pub subscriber: u64,
}

/// Mathematical model of a subscription.
#[verifier::ext_equal]
pub struct SubscriptionView {
    pub rule: MatchRuleView,
    pub subscriber: u64,
}

impl View for Subscription {
    type V = SubscriptionView;

    open spec fn view(&self) -> SubscriptionView {
        SubscriptionView { rule: self.rule@, subscriber: self.subscriber }
    }
}

pub open spec fn objects_view(s: Seq<ObjectEntry>) -> Seq<ObjectEntryView>
    decreases s,
{
    if s.len() == 0 {
        Seq::empty()
    } else {
        seq![s[0]@] + objects_view(s.subrange(1, s.len() as int))
    }
}

pub proof fn lemma_objects_view_elts(s: Seq<ObjectEntry>)
    ensures
        objects_view(s).len() == s.len(),
        forall|i: int| 0 <= i < s.len() ==> objects_view(s)[i] == s[i]@,
    decreases s,
{
    if s.len() != 0 {
        lemma_objects_view_elts(s.subrange(1, s.len() as int));
    }
}

pub open spec fn subs_view(s: Seq<Subscription>) -> Seq<SubscriptionView>
    decreases s,
{
    if s.len() == 0 {
        Seq::empty()
    } else {
        seq![s[0]@] + subs_view(s.subrange(1, s.len() as int))
    }
}

pub proof fn lemma_subs_view_elts(s: Seq<Subscription>)
    ensures
        subs_view(s).len() == s.len(),
        forall|i: int| 0 <= i < s.len() ==> subs_view(s)[i] == s[i]@,
    decreases s,
{
    if s.len() != 0 {
        lemma_subs_view_elts(s.subrange(1, s.len() as int));
    }
}

/// The routing state: registered objects and ordered subscriptions.
#[derive(Debug, PartialEq, Eq)]
pub struct Dispatcher {
    pub objects: Vec<ObjectEntry>,
    pub subscriptions: Vec<Subscription>,
}

/// Mathematical model of the routing state.
#[verifier::ext_equal]
pub struct DispatcherView {
    pub objects: Seq<ObjectEntryView>,
    pub subscriptions: Seq<SubscriptionView>,
}

impl View for Dispatcher {
    type V = DispatcherView;

    open spec fn view(&self) -> DispatcherView {
        DispatcherView {
            objects: objects_view(self.objects@),
            subscriptions: subs_view(self.subscriptions@),
        }
    }
}

/// First object at or after `i` whose path is `p`.
pub open spec fn find_object_from(objs: Seq<ObjectEntryView>, p: Seq<u8>, i: int) -> Option<
    ObjectEntryView,
>
    decreases objs.len() - i,
{
    if i < 0 || i >= objs.len() {
        None
    } else if objs[i].path == p {
        Some(objs[i])
    } else {
        find_object_from(objs, p, i + 1)
    }
}

/// First method at or after `i` with the given interface and member.
pub open spec fn find_method_from(
    ms: Seq<MethodEntryView>,
    iface: Seq<u8>,
    member: Seq<u8>,
    i: int,
) -> Option<u64>
    decreases ms.len() - i,
{
    if i < 0 || i >= ms.len() {
        None
    } else if ms[i].interface == iface && ms[i].member == member {
        Some(ms[i].handler)
    } else {
        find_method_from(ms, iface, member, i + 1)
    }
}

/// Handlers of every method named `member` at or after `i`, regardless
/// of interface, in table order.
pub open spec fn members_from(ms: Seq<MethodEntryView>, member: Seq<u8>, i: int) -> Seq<u64>
    decreases ms.len() - i,
{
    if i < 0 || i >= ms.len() {
        Seq::empty()
    } else if ms[i].member == member {
        seq![ms[i].handler] + members_from(ms, member, i + 1)
    } else {
        members_from(ms, member, i + 1)
    }
}

/// Subscribers at or after `i` whose rule matches `m`, in registration
/// order.
pub open spec fn matching_subs(subs: Seq<SubscriptionView>, m: MessageView, i: int) -> Seq<u64>
    decreases subs.len() - i,
{
    if i < 0 || i >= subs.len() {
        Seq::empty()
    } else if rule_matches(subs[i].rule, m) {
        seq![subs[i].subscriber] + matching_subs(subs, m, i + 1)
    } else {
        matching_subs(subs, m, i + 1)
    }
}

/// The routing decision for a well-formed method call: look up the
/// path, then the member — by exact interface when one was named, else
/// across all interfaces, rejecting an ambiguous member rather than
/// picking one — falling back to the object's fallback handler, and
/// failing with the precise reason otherwise.
pub open spec fn route_method_spec(d: DispatcherView, m: MessageView) -> MethodAction {
    match find_object_from(d.objects, m.path.unwrap(), 0) {
        None => MethodAction::Fail(DispatchError::UnknownObject),
        Some(o) => match m.interface {
            Some(iface) => match find_method_from(o.methods, iface, m.member.unwrap(), 0) {
                Some(h) => MethodAction::Invoke(h),
                None => match o.fallback {
                    Some(f) => MethodAction::Invoke(f),
                    None => MethodAction::Fail(DispatchError::UnknownMethod),
                },
            },
            None => {
                let hs = members_from(o.methods, m.member.unwrap(), 0);
                if hs.len() == 0 {
                    match o.fallback {
                        Some(f) => MethodAction::Invoke(f),
                        None => MethodAction::Fail(DispatchError::UnknownMethod),
                    }
                } else if hs.len() == 1 {
                    MethodAction::Invoke(hs[0])
                } else {
                    MethodAction::Fail(DispatchError::AmbiguousMethod)
                }
            },
        },
    }
}


pub open spec fn unknown_object_name_text() -> Seq<u8> {
    seq![111u8, 114u8, 103u8, 46u8, 102u8, 114u8, 101u8, 101u8, 100u8, 101u8, 115u8, 107u8, 116u8, 111u8, 112u8, 46u8, 68u8, 66u8, 117u8, 115u8, 46u8, 69u8, 114u8, 114u8, 111u8, 114u8, 46u8, 85u8, 110u8, 107u8, 110u8, 111u8, 119u8, 110u8, 79u8, 98u8, 106u8, 101u8, 99u8, 116u8]
}

fn push_unknown_object_name(out: &mut Vec<u8>)
    ensures
        final(out)@ == old(out)@ + unknown_object_name_text(),
{
    out.push(111);
    out.push(114);
    out.push(103);
    out.push(46);
    out.push(102);
    out.push(114);
    out.push(101);
    out.push(101);
    out.push(100);
    out.push(101);
    out.push(115);
    out.push(107);
    out.push(116);
    out.push(111);
    out.push(112);
    out.push(46);
    out.push(68);
    out.push(66);
    out.push(117);
    out.push(115);
    out.push(46);
    out.push(69);
    out.push(114);
    out.push(114);
    out.push(111);
    out.push(114);
    out.push(46);
    out.push(85);
    out.push(110);
    out.push(107);
    out.push(110);
    out.push(111);
    out.push(119);
    out.push(110);
    out.push(79);
    out.push(98);
    out.push(106);
    out.push(101);
    out.push(99);
    out.push(116);
    proof {
        assert(out@ =~= old(out)@ + unknown_object_name_text());
    }
}

pub open spec fn unknown_method_name_text() -> Seq<u8> {
    seq![111u8, 114u8, 103u8, 46u8, 102u8, 114u8, 101u8, 101u8, 100u8, 101u8, 115u8, 107u8, 116u8, 111u8, 112u8, 46u8, 68u8, 66u8, 117u8, 115u8, 46u8, 69u8, 114u8, 114u8, 111u8, 114u8, 46u8, 85u8, 110u8, 107u8, 110u8, 111u8, 119u8, 110u8, 77u8, 101u8, 116u8, 104u8, 111u8, 100u8]
}

fn push_unknown_method_name(out: &mut Vec<u8>)
    ensures
        final(out)@ == old(out)@ + unknown_method_name_text(),
{
    out.push(111);
    out.push(114);
    out.push(103);
    out.push(46);
    out.push(102);
    out.push(114);
    out.push(101);
    out.push(101);
    out.push(100);
    out.push(101);
    out.push(115);
    out.push(107);
    out.push(116);
    out.push(111);
    out.push(112);
    out.push(46);
    out.push(68);
    out.push(66);
    out.push(117);
    out.push(115);
    out.push(46);
    out.push(69);
    out.push(114);
    out.push(114);
    out.push(111);
    out.push(114);
    out.push(46);
    out.push(85);
    out.push(110);
    out.push(107);
    out.push(110);
    out.push(111);
    out.push(119);
    out.push(110);
    out.push(77);
    out.push(101);
    out.push(116);
    out.push(104);
    out.push(111);
    out.push(100);
    proof {
        assert(out@ =~= old(out)@ + unknown_method_name_text());
    }
}

pub open spec fn ambiguous_method_name_text() -> Seq<u8> {
    seq![111u8, 114u8, 103u8, 46u8, 102u8, 114u8, 101u8, 101u8, 100u8, 101u8, 115u8, 107u8, 116u8, 111u8, 112u8, 46u8, 68u8, 66u8, 117u8, 115u8, 46u8, 69u8, 114u8, 114u8, 111u8, 114u8, 46u8, 65u8, 109u8, 98u8, 105u8, 103u8, 117u8, 111u8, 117u8, 115u8, 77u8, 101u8, 116u8, 104u8, 111u8, 100u8]
}

fn push_ambiguous_method_name(out: &mut Vec<u8>)
    ensures
        final(out)@ == old(out)@ + ambiguous_method_name_text(),
{
    out.push(111);
    out.push(114);
    out.push(103);
    out.push(46);
    out.push(102);
    out.push(114);
    out.push(101);
    out.push(101);
    out.push(100);
    out.push(101);
    out.push(115);
    out.push(107);
    out.push(116);
    out.push(111);
    out.push(112);
    out.push(46);
    out.push(68);
    out.push(66);
    out.push(117);
    out.push(115);
    out.push(46);
    out.push(69);
    out.push(114);
    out.push(114);
    out.push(111);
    out.push(114);
    out.push(46);
    out.push(65);
    out.push(109);
    out.push(98);
    out.push(105);
    out.push(103);
    out.push(117);
    out.push(111);
    out.push(117);
    out.push(115);
    out.push(77);
    out.push(101);
    out.push(116);
    out.push(104);
    out.push(111);
    out.push(100);
    proof {
        assert(out@ =~= old(out)@ + ambiguous_method_name_text());
    }
}


/// The error name the dispatcher reports for each failure.
pub open spec fn error_name_text(e: DispatchError) -> Seq<u8> {
    match e {
        DispatchError::UnknownObject => unknown_object_name_text(),
        DispatchError::UnknownMethod => unknown_method_name_text(),
        DispatchError::AmbiguousMethod => ambiguous_method_name_text(),
    }
}

/// The error reply the dispatcher synthesizes for a failed call.
pub open spec fn error_reply_spec(c: MessageView, e: DispatchError) -> MessageView {
    MessageView {
        kind: MessageKind::Error,
        serial: 0,
        path: None,
        interface: None,
        member: None,
        destination: c.sender,
        sender: None,
        reply_serial: Some(c.serial),
        error_name: Some(error_name_text(e)),
        body: Seq::empty(),
    }
}

/// The reply message a handler outcome completes to.
pub open spec fn complete_spec(c: MessageView, o: HandlerOutcomeView) -> MessageView {
    match o {
        HandlerOutcomeView::Success(vals) => MessageView {
            kind: MessageKind::MethodReturn,
            serial: 0,
            path: None,
            interface: None,
            member: None,
            destination: c.sender,
            sender: None,
            reply_serial: Some(c.serial),
            error_name: None,
            body: vals,
        },
        HandlerOutcomeView::Failure(name, text) => MessageView {
            kind: MessageKind::Error,
            serial: 0,
            path: None,
            interface: None,
            member: None,
            destination: c.sender,
            sender: None,
            reply_serial: Some(c.serial),
            error_name: Some(name),
            body: (match text {
                Some(t) => seq![ValueView::Str(t)],
                None => Seq::empty(),
            }),
        },
    }
}

/// What it means to answer `c`: a return or an error (exactly one of
/// the two, the kinds being disjoint), aimed back at the caller, with
/// the reply serial of the call.
pub open spec fn is_reply_to(r: MessageView, c: MessageView) -> bool {
    &&& (r.kind == MessageKind::MethodReturn || r.kind == MessageKind::Error)
    &&& r.reply_serial == Some(c.serial)
    &&& r.destination == c.sender
    &&& (r.kind == MessageKind::Error ==> r.error_name is Some)
}

/// Build the error reply for a routing failure.
pub fn error_reply(call: &Message, e: DispatchError) -> (r: Message)
    requires
        call@.kind == MessageKind::MethodCall,
    ensures
        r@ == error_reply_spec(call@, e),
        msg_wf(r@),
        is_reply_to(r@, call@),
{
    let mut name: Vec<u8> = Vec::new();
    match e {
        DispatchError::UnknownObject => push_unknown_object_name(&mut name),
        DispatchError::UnknownMethod => push_unknown_method_name(&mut name),
        DispatchError::AmbiguousMethod => push_ambiguous_method_name(&mut name),
    }
    proof {
        assert(name@ =~= error_name_text(e));
    }
    let m = Message::new_error(call, name);
    proof {
        assert(m@ =~= error_reply_spec(call@, e));
    }
    m
}

/// Turn a handler's outcome into the one reply message owed to the
/// caller; the dispatcher never leaves a method call unanswered.
pub fn complete_call(call: &Message, outcome: HandlerOutcome) -> (r: Message)
    requires
        call@.kind == MessageKind::MethodCall,
    ensures
        r@ == complete_spec(call@, outcome_view(outcome)),
        msg_wf(r@),
        is_reply_to(r@, call@),
{
    match outcome {
        HandlerOutcome::Success(vals) => {
            let mut m = Message::new_method_return(call);
            let ghost vv = vals_view(vals@);
            m.body = vals;
            proof {
                assert(m@ =~= complete_spec(call@, outcome_view(HandlerOutcome::Success(
                    m.body,
                ))));
            }
            m
        },
        HandlerOutcome::Failure(name, text) => {
            let ghost namev = name@;
            let ghost textv = crate::message::opt_bytes_view(text);
            let mut m = Message::new_error(call, name);
            match text {
                Some(t) => {
                    let mut body: Vec<Value> = Vec::new();
                    body.push(Value::Str(t));
                    m.body = body;
                    proof {
                        lemma_vals_view_elts(m.body@);
                        assert(vals_view(m.body@) =~= seq![
                            ValueView::Str(textv.unwrap()),
                        ]);
                        assert(m@ =~= complete_spec(call@, HandlerOutcomeView::Failure(
                            namev,
                            textv,
                        )));
                    }
                },
                None => {
                    proof {
                        assert(m@ =~= complete_spec(call@, HandlerOutcomeView::Failure(
                            namev,
                            textv,
                        )));
                    }
                },
            }
            m
        },
    }
}

/// Dispatch totality: for a well-formed method call, whichever way the
/// dispatcher decides, the caller ends up with exactly one answer —
/// the synthesized error reply on failure, or, for any outcome the
/// invoked handler produces, the completed reply — and that answer is
/// a return or an error addressed back to the call.
pub proof fn lemma_method_call_answered(
    d: DispatcherView,
    m: MessageView,
    o: HandlerOutcomeView,
)
    requires
        m.kind == MessageKind::MethodCall,
        msg_wf(m),
    ensures
        (route_method_spec(d, m) matches MethodAction::Fail(e) ==> is_reply_to(
            error_reply_spec(m, e),
            m,
        )),
        (route_method_spec(d, m) matches MethodAction::Invoke(h) ==> is_reply_to(
            complete_spec(m, o),
            m,
        )),
{
}

/// Ambiguity is surfaced, never resolved silently: a call that names
/// no interface, aimed at a member that two or more interfaces at its
/// path define, is answered with the ambiguous-method error.
pub proof fn lemma_ambiguous_rejected(d: DispatcherView, m: MessageView)
    requires
        m.kind == MessageKind::MethodCall,
        msg_wf(m),
        m.interface is None,
        find_object_from(d.objects, m.path.unwrap(), 0) matches Some(o) && members_from(
            o.methods,
            m.member.unwrap(),
            0,
        ).len() >= 2,
    ensures
        route_method_spec(d, m) == MethodAction::Fail(DispatchError::AmbiguousMethod),
{
}

/// Fan-out law: the notified subscribers are exactly the subscribers
/// of the matching rules, kept in registration order.
pub proof fn lemma_signal_fanout(subs: Seq<SubscriptionView>, m: MessageView, i: int)
    requires
        0 <= i <= subs.len(),
    ensures
        matching_subs(subs, m, i) == subs.subrange(i, subs.len() as int).filter(
            |s: SubscriptionView| rule_matches(s.rule, m),
        ).map_values(|s: SubscriptionView| s.subscriber),
    decreases subs.len() - i,
{
    broadcast use vstd::seq_lib::group_seq_properties;

    let pred = |s: SubscriptionView| rule_matches(s.rule, m);
    let f = |s: SubscriptionView| s.subscriber;
    if i == subs.len() {
        assert(subs.subrange(i, subs.len() as int) =~= Seq::<SubscriptionView>::empty());
        reveal_with_fuel(Seq::filter, 2);
        assert(Seq::<SubscriptionView>::empty().filter(pred) =~= Seq::<
            SubscriptionView,
        >::empty());
        assert(matching_subs(subs, m, i) =~= Seq::<u64>::empty());
        assert(Seq::<SubscriptionView>::empty().map_values(f) =~= Seq::<u64>::empty());
    } else {
        lemma_signal_fanout(subs, m, i + 1);
        let head = seq![subs[i]];
        let tail = subs.subrange(i + 1, subs.len() as int);
        assert(subs.subrange(i, subs.len() as int) =~= head + tail);
        Seq::filter_distributes_over_add(head, tail, pred);
        reveal_with_fuel(Seq::filter, 2);
        assert(head.drop_last() =~= Seq::<SubscriptionView>::empty());
        assert(Seq::<SubscriptionView>::empty().filter(pred) =~= Seq::<
            SubscriptionView,
        >::empty());
        if pred(subs[i]) {
            assert(head.filter(pred) =~= head);
        } else {
            assert(head.filter(pred) =~= Seq::<SubscriptionView>::empty());
        }
        assert((head.filter(pred) + tail.filter(pred)).map_values(f) =~= head.filter(
            pred,
        ).map_values(f) + tail.filter(pred).map_values(f));
        if pred(subs[i]) {
            assert(head.map_values(f) =~= seq![subs[i].subscriber]);
            assert(matching_subs(subs, m, i) =~= seq![subs[i].subscriber] + matching_subs(
                subs,
                m,
                i + 1,
            ));
        }
        assert(matching_subs(subs, m, i) =~= subs.subrange(i, subs.len() as int).filter(
            pred,
        ).map_values(f));
    }
}

pub proof fn lemma_find_object_congruent(
    a: Seq<ObjectEntryView>,
    b: Seq<ObjectEntryView>,
    p: Seq<u8>,
    i: int,
)
    requires
        a.len() == b.len(),
        forall|j: int| i <= j < a.len() ==> a[j] == b[j],
    ensures
        find_object_from(a, p, i) == find_object_from(b, p, i),
    decreases a.len() - i,
{
    if 0 <= i && i < a.len() {
        lemma_find_object_congruent(a, b, p, i + 1);
    }
}

pub proof fn lemma_find_object_update(
    objs: Seq<ObjectEntryView>,
    idx: int,
    o2: ObjectEntryView,
    p: Seq<u8>,
    i: int,
)
    requires
        0 <= i <= idx < objs.len(),
        forall|j: int| i <= j < idx ==> (#[trigger] objs[j]).path != objs[idx].path,
        o2.path == objs[idx].path,
    ensures
        find_object_from(objs.update(idx, o2), p, i) == (if p == o2.path {
            Some(o2)
        } else {
            find_object_from(objs, p, i)
        }),
    decreases idx - i,
{
    let u = objs.update(idx, o2);
    if i == idx {
        if p != o2.path {
            lemma_find_object_congruent(u, objs, p, i + 1);
        }
    } else {
        lemma_find_object_update(objs, idx, o2, p, i + 1);
    }
}

pub proof fn lemma_find_object_push(
    objs: Seq<ObjectEntryView>,
    o2: ObjectEntryView,
    p: Seq<u8>,
    i: int,
)
    requires
        0 <= i <= objs.len(),
    ensures
        find_object_from(objs.push(o2), p, i) == (match find_object_from(objs, p, i) {
            Some(o) => Some(o),
            None => if p == o2.path {
                Some(o2)
            } else {
                None
            },
        }),
    decreases objs.len() - i,
{
    if i < objs.len() {
        lemma_find_object_push(objs, o2, p, i + 1);
        assert(objs.push(o2)[i] == objs[i]);
    } else {
        assert(objs.push(o2)[i] == o2);
        assert(find_object_from(objs, p, i) is None);
        assert(find_object_from(objs.push(o2), p, i + 1) is None);
    }
}

pub proof fn lemma_find_method_congruent(
    a: Seq<MethodEntryView>,
    b: Seq<MethodEntryView>,
    ifc: Seq<u8>,
    mem: Seq<u8>,
    i: int,
)
    requires
        a.len() == b.len(),
        forall|j: int| i <= j < a.len() ==> a[j] == b[j],
    ensures
        find_method_from(a, ifc, mem, i) == find_method_from(b, ifc, mem, i),
    decreases a.len() - i,
{
    if 0 <= i && i < a.len() {
        lemma_find_method_congruent(a, b, ifc, mem, i + 1);
    }
}

pub proof fn lemma_find_method_update(
    ms: Seq<MethodEntryView>,
    idx: int,
    e2: MethodEntryView,
    ifc: Seq<u8>,
    mem: Seq<u8>,
    i: int,
)
    requires
        0 <= i <= idx < ms.len(),
        forall|j: int|
            i <= j < idx ==> !((#[trigger] ms[j]).interface == ms[idx].interface && ms[j].member
                == ms[idx].member),
        e2.interface == ms[idx].interface,
        e2.member == ms[idx].member,
    ensures
        find_method_from(ms.update(idx, e2), ifc, mem, i) == (if ifc == e2.interface && mem
            == e2.member {
            Some(e2.handler)
        } else {
            find_method_from(ms, ifc, mem, i)
        }),
    decreases idx - i,
{
    let u = ms.update(idx, e2);
    if i == idx {
        if !(ifc == e2.interface && mem == e2.member) {
            lemma_find_method_congruent(u, ms, ifc, mem, i + 1);
        }
    } else {
        lemma_find_method_update(ms, idx, e2, ifc, mem, i + 1);
    }
}

pub proof fn lemma_find_method_push(
    ms: Seq<MethodEntryView>,
    e2: MethodEntryView,
    ifc: Seq<u8>,
    mem: Seq<u8>,
    i: int,
)
    requires
        0 <= i <= ms.len(),
    ensures
        find_method_from(ms.push(e2), ifc, mem, i) == (match find_method_from(ms, ifc, mem, i) {
            Some(h) => Some(h),
            None => if ifc == e2.interface && mem == e2.member {
                Some(e2.handler)
            } else {
                None
            },
        }),
    decreases ms.len() - i,
{
    if i < ms.len() {
        lemma_find_method_push(ms, e2, ifc, mem, i + 1);
        assert(ms.push(e2)[i] == ms[i]);
    } else {
        assert(ms.push(e2)[i] == e2);
        assert(find_method_from(ms, ifc, mem, i) is None);
        assert(find_method_from(ms.push(e2), ifc, mem, i + 1) is None);
    }
}

pub proof fn lemma_find_object_skip(objs: Seq<ObjectEntryView>, p: Seq<u8>, i: int, k: int)
    requires
        0 <= i <= k <= objs.len(),
        forall|j: int| i <= j < k ==> (#[trigger] objs[j]).path != p,
    ensures
        find_object_from(objs, p, i) == find_object_from(objs, p, k),
    decreases k - i,
{
    if i < k {
        lemma_find_object_skip(objs, p, i + 1, k);
    }
}

pub proof fn lemma_find_object_none(objs: Seq<ObjectEntryView>, p: Seq<u8>, i: int)
    requires
        forall|j: int| i <= j < objs.len() ==> (#[trigger] objs[j]).path != p,
    ensures
        find_object_from(objs, p, i) is None,
    decreases objs.len() - i,
{
    if 0 <= i && i < objs.len() {
        lemma_find_object_none(objs, p, i + 1);
    }
}

pub proof fn lemma_find_method_none(ms: Seq<MethodEntryView>, ifc: Seq<u8>, mem: Seq<u8>, i: int)
    requires
        forall|j: int|
            i <= j < ms.len() ==> !((#[trigger] ms[j]).interface == ifc && ms[j].member == mem),
    ensures
        find_method_from(ms, ifc, mem, i) is None,
    decreases ms.len() - i,
{
    if 0 <= i && i < ms.len() {
        lemma_find_method_none(ms, ifc, mem, i + 1);
    }
}

fn find_object_idx(objs: &Vec<ObjectEntry>, path: &Vec<u8>) -> (r: Option<usize>)
    ensures
        (match r {
            Some(k) => k < objs@.len() && (#[trigger] objs@[k as int])@.path == path@ && (forall|
                j: int,
            |
                0 <= j < k ==> (#[trigger] objs@[j])@.path != path@),
            None => forall|j: int| 0 <= j < objs@.len() ==> (#[trigger] objs@[j])@.path != path@,
        }),
{
    let mut k: usize = 0;
    let n = objs.len();
    while k < n
        invariant
            0 <= k <= objs@.len(),
            n == objs@.len(),
            forall|j: int| 0 <= j < k ==> (#[trigger] objs@[j])@.path != path@,
        decreases objs@.len() - k,
    {
        if bytes_eq(&objs[k].path, path) {
            return Some(k);
        }
        k = k + 1;
    }
    None
}

fn find_method_idx(ms: &Vec<MethodEntry>, interface: &Vec<u8>, member: &Vec<u8>) -> (r: Option<
    usize,
>)
    ensures
        (match r {
            Some(k) => k < ms@.len() && (#[trigger] ms@[k as int])@.interface == interface@
                && ms@[k as int]@.member == member@ && (forall|j: int|
                0 <= j < k ==> !((#[trigger] ms@[j])@.interface == interface@ && ms@[j]@.member
                    == member@)),
            None => forall|j: int|
                0 <= j < ms@.len() ==> !((#[trigger] ms@[j])@.interface == interface@
                    && ms@[j]@.member == member@),
        }),
{
    let mut k: usize = 0;
    let n = ms.len();
    while k < n
        invariant
            0 <= k <= ms@.len(),
            n == ms@.len(),
            forall|j: int|
                0 <= j < k ==> !((#[trigger] ms@[j])@.interface == interface@ && ms@[j]@.member
                    == member@),
        decreases ms@.len() - k,
    {
        if bytes_eq(&ms[k].interface, interface) && bytes_eq(&ms[k].member, member) {
            return Some(k);
        }
        k = k + 1;
    }
    None
}

impl Dispatcher {
    /// An empty dispatcher: no objects, no subscriptions.
    pub fn new() -> (d: Dispatcher)
        ensures
            d@ == (DispatcherView { objects: Seq::empty(), subscriptions: Seq::empty() }),
    {
        let d = Dispatcher { objects: Vec::new(), subscriptions: Vec::new() };
        proof {
            assert(d@ =~= (DispatcherView {
                objects: Seq::empty(),
                subscriptions: Seq::empty(),
            }));
        }
        d
    }

    /// Subscribe for signals: the rule and subscriber are appended
    /// after every earlier subscription, which fixes the notification
    /// order.
    pub fn subscribe(&mut self, rule: MatchRule, subscriber: u64)
        ensures
            final(self)@ == (DispatcherView {
                objects: old(self)@.objects,
                subscriptions: old(self)@.subscriptions.push(
                    SubscriptionView { rule: rule@, subscriber },
                ),
            }),
    {
        let ghost rv = rule@;
        let ghost old_subs = self.subscriptions@;
        self.subscriptions.push(Subscription { rule, subscriber });
        proof {
            lemma_subs_view_elts(old_subs);
            lemma_subs_view_elts(self.subscriptions@);
            assert(subs_view(self.subscriptions@) =~= subs_view(old_subs).push(
                SubscriptionView { rule: rv, subscriber },
            ));
            assert(final(self)@ =~= (DispatcherView {
                objects: old(self)@.objects,
                subscriptions: old(self)@.subscriptions.push(
                    SubscriptionView { rule: rv, subscriber },
                ),
            }));
        }
    }

    /// Register (or replace) the handler serving `interface`/`member`
    /// at `path`, creating the object entry on first use.  Every other
    /// registration, each fallback, and the subscriptions are
    /// untouched.
    pub fn register_method(
        &mut self,
        path: Vec<u8>,
        interface: Vec<u8>,
        member: Vec<u8>,
        handler: u64,
    )
        ensures
            final(self)@.subscriptions == old(self)@.subscriptions,
            (find_object_from(final(self)@.objects, path@, 0) matches Some(o) && o.path == path@
                && find_method_from(o.methods, interface@, member@, 0) == Some(handler)),
            forall|p: Seq<u8>|
                p != path@ ==> find_object_from(final(self)@.objects, p, 0) == find_object_from(
                    old(self)@.objects,
                    p,
                    0,
                ),
            (match (
                find_object_from(old(self)@.objects, path@, 0),
                find_object_from(final(self)@.objects, path@, 0),
            ) {
                (Some(oldo), Some(newo)) => newo.fallback == oldo.fallback && (forall|
                    ifc: Seq<u8>,
                    mem: Seq<u8>,
                |
                    !(ifc == interface@ && mem == member@) ==> find_method_from(
                        newo.methods,
                        ifc,
                        mem,
                        0,
                    ) == find_method_from(oldo.methods, ifc, mem, 0)),
                (None, Some(newo)) => newo.fallback is None && (forall|ifc: Seq<u8>, mem: Seq<u8>|
                    !(ifc == interface@ && mem == member@) ==> find_method_from(
                        newo.methods,
                        ifc,
                        mem,
                        0,
                    ) is None),
                _ => false,
            }),
    {
        let ghost pathv = path@;
        let ghost ifacev = interface@;
        let ghost memberv = member@;
        let ghost old_ov = objects_view(self.objects@);
        let ghost old_subs = subs_view(self.subscriptions@);
        proof {
            lemma_objects_view_elts(self.objects@);
        }
        match find_object_idx(&self.objects, &path) {
            Some(k) => {
                let ghost old_objs = self.objects@;
                let mut obj = self.objects.remove(k);
                let ghost old_obj_v = obj@;
                let ghost old_ms = entries_view(obj.methods@);
                proof {
                    lemma_entries_view_elts(obj.methods@);
                }
                let entry = MethodEntry { interface, member, handler };
                let ghost ev2 = (MethodEntryView { interface: ifacev, member: memberv, handler });
                match find_method_idx(&obj.methods, &entry.interface, &entry.member) {
                    Some(k2) => {
                        let ghost before = obj.methods@;
                        obj.methods.remove(k2);
                        obj.methods.insert(k2, entry);
                        proof {
                            assert(obj.methods@ =~= before.update(k2 as int, entry));
                            lemma_entries_view_elts(obj.methods@);
                            assert(entries_view(obj.methods@) =~= old_ms.update(k2 as int, ev2));
                            lemma_find_method_update(old_ms, k2 as int, ev2, ifacev, memberv, 0);
                            assert(find_method_from(entries_view(obj.methods@), ifacev, memberv, 0)
                                == Some(handler));
                            assert forall|ifc: Seq<u8>, mem: Seq<u8>|
                                !(ifc == ifacev && mem == memberv) implies find_method_from(
                                entries_view(obj.methods@),
                                ifc,
                                mem,
                                0,
                            ) == find_method_from(old_ms, ifc, mem, 0) by {
                                lemma_find_method_update(old_ms, k2 as int, ev2, ifc, mem, 0);
                            }
                        }
                    },
                    None => {
                        proof {
                            lemma_entries_view_elts(obj.methods@);
                        }
                        obj.methods.push(entry);
                        proof {
                            lemma_entries_view_elts(obj.methods@);
                            assert(entries_view(obj.methods@) =~= old_ms.push(ev2));
                            lemma_find_method_none(old_ms, ifacev, memberv, 0);
                            lemma_find_method_push(old_ms, ev2, ifacev, memberv, 0);
                            assert(find_method_from(entries_view(obj.methods@), ifacev, memberv, 0)
                                == Some(handler));
                            assert forall|ifc: Seq<u8>, mem: Seq<u8>|
                                !(ifc == ifacev && mem == memberv) implies find_method_from(
                                entries_view(obj.methods@),
                                ifc,
                                mem,
                                0,
                            ) == find_method_from(old_ms, ifc, mem, 0) by {
                                lemma_find_method_push(old_ms, ev2, ifc, mem, 0);
                            }
                        }
                    },
                }
                let ghost new_obj_v = (ObjectEntryView {
                    path: old_obj_v.path,
                    methods: entries_view(obj.methods@),
                    fallback: old_obj_v.fallback,
                });
                proof {
                    assert(obj@ =~= new_obj_v);
                }
                self.objects.insert(k, obj);
                proof {
                    assert(self.objects@ =~= old_objs.update(k as int, self.objects@[k as int]));
                    lemma_objects_view_elts(self.objects@);
                    assert(objects_view(self.objects@) =~= old_ov.update(k as int, new_obj_v));
                    assert forall|p: Seq<u8>| true implies find_object_from(
                        objects_view(self.objects@),
                        p,
                        0,
                    ) == (if p == pathv {
                        Some(new_obj_v)
                    } else {
                        find_object_from(old_ov, p, 0)
                    }) by {
                        lemma_find_object_update(old_ov, k as int, new_obj_v, p, 0);
                    }
                    assert(find_object_from(old_ov, pathv, 0) == Some(old_obj_v)) by {
                        assert(find_object_from(old_ov, pathv, 0) == find_object_from(
                            old_ov,
                            pathv,
                            k as int,
                        )) by {
                            lemma_find_object_skip(old_ov, pathv, 0, k as int);
                        }
                    }
                    assert(final(self)@.subscriptions =~= old_subs);
                }
            },
            None => {
                let mut ms: Vec<MethodEntry> = Vec::new();
                let entry = MethodEntry { interface, member, handler };
                let ghost ev2 = (MethodEntryView { interface: ifacev, member: memberv, handler });
                ms.push(entry);
                let ghost msv = entries_view(ms@);
                proof {
                    lemma_entries_view_elts(ms@);
                    assert(msv =~= seq![ev2]);
                }
                let new_obj = ObjectEntry { path, methods: ms, fallback: None };
                let ghost new_obj_v = new_obj@;
                let ghost old_objs = self.objects@;
                self.objects.push(new_obj);
                proof {
                    lemma_objects_view_elts(self.objects@);
                    assert(objects_view(self.objects@) =~= old_ov.push(new_obj_v));
                    lemma_find_object_none(old_ov, pathv, 0);
                    assert forall|p: Seq<u8>| true implies find_object_from(
                        objects_view(self.objects@),
                        p,
                        0,
                    ) == (if p == pathv {
                        Some(new_obj_v)
                    } else {
                        find_object_from(old_ov, p, 0)
                    }) by {
                        lemma_find_object_push(old_ov, new_obj_v, p, 0);
                    }
                    assert(find_method_from(new_obj_v.methods, ifacev, memberv, 0) == Some(
                        handler,
                    ));
                    assert forall|ifc: Seq<u8>, mem: Seq<u8>|
                        !(ifc == ifacev && mem == memberv) implies find_method_from(
                        new_obj_v.methods,
                        ifc,
                        mem,
                        0,
                    ) is None by {
                        lemma_find_method_none(new_obj_v.methods, ifc, mem, 1);
                    }
                    assert(final(self)@.subscriptions =~= old_subs);
                }
            },
        }
    }

    /// Set (or replace) the fallback handler at `path`, creating the
    /// object entry on first use; its methods and everything else are
    /// untouched.
    pub fn set_fallback(&mut self, path: Vec<u8>, handler: u64)
        ensures
            final(self)@.subscriptions == old(self)@.subscriptions,
            (find_object_from(final(self)@.objects, path@, 0) matches Some(o) && o.path == path@
                && o.fallback == Some(handler)),
            forall|p: Seq<u8>|
                p != path@ ==> find_object_from(final(self)@.objects, p, 0) == find_object_from(
                    old(self)@.objects,
                    p,
                    0,
                ),
            (match (
                find_object_from(old(self)@.objects, path@, 0),
                find_object_from(final(self)@.objects, path@, 0),
            ) {
                (Some(oldo), Some(newo)) => newo.methods == oldo.methods,
                (None, Some(newo)) => newo.methods == Seq::<MethodEntryView>::empty(),
                _ => false,
            }),
    {
        let ghost pathv = path@;
        let ghost old_ov = objects_view(self.objects@);
        let ghost old_subs = subs_view(self.subscriptions@);
        proof {
            lemma_objects_view_elts(self.objects@);
        }
        match find_object_idx(&self.objects, &path) {
            Some(k) => {
                let ghost old_objs = self.objects@;
                let mut obj = self.objects.remove(k);
                let ghost old_obj_v = obj@;
                obj.fallback = Some(handler);
                let ghost new_obj_v = obj@;
                self.objects.insert(k, obj);
                proof {
                    assert(self.objects@ =~= old_objs.update(k as int, self.objects@[k as int]));
                    lemma_objects_view_elts(self.objects@);
                    assert(objects_view(self.objects@) =~= old_ov.update(k as int, new_obj_v));
                    assert forall|p: Seq<u8>| true implies find_object_from(
                        objects_view(self.objects@),
                        p,
                        0,
                    ) == (if p == pathv {
                        Some(new_obj_v)
                    } else {
                        find_object_from(old_ov, p, 0)
                    }) by {
                        lemma_find_object_update(old_ov, k as int, new_obj_v, p, 0);
                    }
                    lemma_find_object_skip(old_ov, pathv, 0, k as int);
                    assert(final(self)@.subscriptions =~= old_subs);
                }
            },
            None => {
                let new_obj = ObjectEntry { path, methods: Vec::new(), fallback: Some(handler) };
                let ghost new_obj_v = new_obj@;
                self.objects.push(new_obj);
                proof {
                    lemma_objects_view_elts(self.objects@);
                    assert(objects_view(self.objects@) =~= old_ov.push(new_obj_v));
                    lemma_find_object_none(old_ov, pathv, 0);
                    assert forall|p: Seq<u8>| true implies find_object_from(
                        objects_view(self.objects@),
                        p,
                        0,
                    ) == (if p == pathv {
                        Some(new_obj_v)
                    } else {
                        find_object_from(old_ov, p, 0)
                    }) by {
                        lemma_find_object_push(old_ov, new_obj_v, p, 0);
                    }
                    assert(new_obj_v.methods =~= Seq::<MethodEntryView>::empty());
                    assert(final(self)@.subscriptions =~= old_subs);
                }
            },
        }
    }

    /// All subscribers whose rule matches `m`, in registration order.
    /// Every matching subscriber is notified; none is skipped; an
    /// unmatched message yields the empty list, which is no error.
    pub fn route_signal(&self, m: &Message) -> (r: Vec<u64>)
        ensures
            r@ == matching_subs(self@.subscriptions, m@, 0),
    {
        let ghost sv = subs_view(self.subscriptions@);
        proof {
            lemma_subs_view_elts(self.subscriptions@);
        }
        let mut r: Vec<u64> = Vec::new();
        let mut k: usize = 0;
        while k < self.subscriptions.len()
            invariant
                0 <= k <= self.subscriptions@.len(),
                sv == subs_view(self.subscriptions@),
                sv.len() == self.subscriptions@.len(),
                forall|j: int|
                    0 <= j < self.subscriptions@.len() ==> sv[j] == self.subscriptions@[j]@,
                r@ + matching_subs(sv, m@, k as int) == matching_subs(sv, m@, 0),
            decreases self.subscriptions@.len() - k,
        {
            if self.subscriptions[k].rule.matches(m) {
                let s = self.subscriptions[k].subscriber;
                let ghost old_r = r@;
                r.push(s);
                proof {
                    assert(matching_subs(sv, m@, k as int) =~= seq![sv[k as int].subscriber]
                        + matching_subs(sv, m@, k as int + 1));
                    assert(r@ + matching_subs(sv, m@, k as int + 1) =~= old_r + matching_subs(
                        sv,
                        m@,
                        k as int,
                    ));
                }
            } else {
                proof {
                    assert(matching_subs(sv, m@, k as int) =~= matching_subs(
                        sv,
                        m@,
                        k as int + 1,
                    ));
                }
            }
            k = k + 1;
        }
        proof {
            assert(matching_subs(sv, m@, sv.len() as int) =~= Seq::<u64>::empty());
            assert(r@ =~= matching_subs(sv, m@, 0));
        }
        r
    }

    /// Route one inbound method call: either the token of the handler
    /// to invoke, or a failure to be answered with `error_reply`.
    pub fn route_method_call(&self, m: &Message) -> (r: MethodAction)
        requires
            m@.kind == MessageKind::MethodCall,
            msg_wf(m@),
        ensures
            r == route_method_spec(self@, m@),
    {
        let ghost ov = objects_view(self.objects@);
        proof {
            lemma_objects_view_elts(self.objects@);
        }
        let path: &Vec<u8> = match &m.path {
            Some(p) => p,
            None => {
                proof {
                    assert(false);
                }
                return MethodAction::Fail(DispatchError::UnknownObject);
            },
        };
        let member: &Vec<u8> = match &m.member {
            Some(w) => w,
            None => {
                proof {
                    assert(false);
                }
                return MethodAction::Fail(DispatchError::UnknownMethod);
            },
        };
        let mut k: usize = 0;
        let n = self.objects.len();
        while k < n
            invariant
                0 <= k <= self.objects@.len(),
                n == self.objects@.len(),
                ov == objects_view(self.objects@),
                ov.len() == self.objects@.len(),
                forall|j: int| 0 <= j < self.objects@.len() ==> ov[j] == self.objects@[j]@,
                m@.kind == MessageKind::MethodCall,
                msg_wf(m@),
                m@.path == Some(path@),
                m@.member == Some(member@),
                find_object_from(ov, path@, 0) == find_object_from(ov, path@, k as int),
            decreases self.objects@.len() - k,
        {
            if bytes_eq(&self.objects[k].path, path) {
                let obj = &self.objects[k];
                proof {
                    assert(find_object_from(ov, path@, k as int) == Some(ov[k as int]));
                }
                return self.route_in_object(obj, m, member, Ghost(ov[k as int]));
            }
            k = k + 1;
        }
        proof {
            assert(find_object_from(ov, path@, ov.len() as int) is None);
        }
        MethodAction::Fail(DispatchError::UnknownObject)
    }

    fn route_in_object(
        &self,
        obj: &ObjectEntry,
        m: &Message,
        member: &Vec<u8>,
        found: Ghost<ObjectEntryView>,
    ) -> (r: MethodAction)
        requires
            m@.kind == MessageKind::MethodCall,
            msg_wf(m@),
            found@ == obj@,
            find_object_from(self@.objects, m@.path.unwrap(), 0) == Some(found@),
            member@ == m@.member.unwrap(),
        ensures
            r == route_method_spec(self@, m@),
    {
        let ghost ev = entries_view(obj.methods@);
        proof {
            lemma_entries_view_elts(obj.methods@);
        }
        match &m.interface {
            Some(iface) => {
                let mut k: usize = 0;
                while k < obj.methods.len()
                    invariant
                        0 <= k <= obj.methods@.len(),
                        ev == entries_view(obj.methods@),
                        ev.len() == obj.methods@.len(),
                        forall|j: int| 0 <= j < obj.methods@.len() ==> ev[j] == obj.methods@[j]@,
                        m@.kind == MessageKind::MethodCall,
                        msg_wf(m@),
                        found@ == obj@,
                        find_object_from(self@.objects, m@.path.unwrap(), 0) == Some(found@),
                        m@.interface == Some(iface@),
                        m@.member == Some(member@),
                        find_method_from(ev, iface@, member@, 0) == find_method_from(
                            ev,
                            iface@,
                            member@,
                            k as int,
                        ),
                    decreases obj.methods@.len() - k,
                {
                    if bytes_eq(&obj.methods[k].interface, iface) && bytes_eq(
                        &obj.methods[k].member,
                        member,
                    ) {
                        proof {
                            assert(find_method_from(ev, iface@, member@, k as int) == Some(
                                ev[k as int].handler,
                            ));
                        }
                        return MethodAction::Invoke(obj.methods[k].handler);
                    }
                    k = k + 1;
                }
                proof {
                    assert(find_method_from(ev, iface@, member@, ev.len() as int) is None);
                }
                match &obj.fallback {
                    Some(f) => MethodAction::Invoke(*f),
                    None => MethodAction::Fail(DispatchError::UnknownMethod),
                }
            },
            None => {
                let mut hs: Vec<u64> = Vec::new();
                let mut k: usize = 0;
                while k < obj.methods.len()
                    invariant
                        0 <= k <= obj.methods@.len(),
                        ev == entries_view(obj.methods@),
                        ev.len() == obj.methods@.len(),
                        forall|j: int| 0 <= j < obj.methods@.len() ==> ev[j] == obj.methods@[j]@,
                        m@.kind == MessageKind::MethodCall,
                        msg_wf(m@),
                        found@ == obj@,
                        find_object_from(self@.objects, m@.path.unwrap(), 0) == Some(found@),
                        m@.interface is None,
                        m@.member == Some(member@),
                        hs@ + members_from(ev, member@, k as int) == members_from(ev, member@, 0),
                    decreases obj.methods@.len() - k,
                {
                    if bytes_eq(&obj.methods[k].member, member) {
                        let ghost old_hs = hs@;
                        hs.push(obj.methods[k].handler);
                        proof {
                            assert(members_from(ev, member@, k as int) =~= seq![
                                ev[k as int].handler,
                            ] + members_from(ev, member@, k as int + 1));
                            assert(hs@ + members_from(ev, member@, k as int + 1) =~= old_hs
                                + members_from(ev, member@, k as int));
                        }
                    } else {
                        proof {
                            assert(members_from(ev, member@, k as int) =~= members_from(
                                ev,
                                member@,
                                k as int + 1,
                            ));
                        }
                    }
                    k = k + 1;
                }
                proof {
                    assert(members_from(ev, member@, ev.len() as int) =~= Seq::<u64>::empty());
                    assert(hs@ =~= members_from(ev, member@, 0));
                }
                if hs.len() == 0 {
                    match &obj.fallback {
                        Some(f) => MethodAction::Invoke(*f),
                        None => MethodAction::Fail(DispatchError::UnknownMethod),
                    }
                } else if hs.len() == 1 {
                    MethodAction::Invoke(hs[0])
                } else {
                    MethodAction::Fail(DispatchError::AmbiguousMethod)
                }
            },
        }
    }
}

} // verus!
