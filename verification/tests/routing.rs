use dbus::dispatch::DispatchError;
use dbus::dispatch::Dispatcher;
use dbus::dispatch::HandlerOutcome;
use dbus::dispatch::MethodAction;
use dbus::dispatch::complete_call;
use dbus::dispatch::error_reply;
use dbus::matchrule::MatchRule;
use dbus::message::Message;
use dbus::message::MessageKind;
use dbus::value::Value;

fn signal_at(path: &[u8], interface: &[u8], member: &[u8]) -> Message {
    Message::new_signal(path.to_vec(), interface.to_vec(), member.to_vec())
}

#[test]
fn path_namespace_respects_segments() {
    let mut r = MatchRule::new();
    r.with_path_namespace(b"/a/b".to_vec());
    assert!(r.matches(&signal_at(b"/a/b", b"i.f", b"S")));
    assert!(r.matches(&signal_at(b"/a/b/c", b"i.f", b"S")));
    assert!(!r.matches(&signal_at(b"/a/bc", b"i.f", b"S")));
    assert!(!r.matches(&signal_at(b"/a", b"i.f", b"S")));
    let mut root = MatchRule::new();
    root.with_path_namespace(b"/".to_vec());
    assert!(root.matches(&signal_at(b"/a/bc", b"i.f", b"S")));
    assert!(root.matches(&signal_at(b"/", b"i.f", b"S")));
}

#[test]
fn empty_rule_matches_everything() {
    let r = MatchRule::new();
    assert!(r.matches(&signal_at(b"/any", b"a.b", b"M")));
    let call = Message::new_method_call(None, b"/x".to_vec(), None, b"Go".to_vec());
    assert!(r.matches(&call));
}

#[test]
fn rule_fields_are_a_conjunction() {
    let mut r = MatchRule::new();
    r.with_kind(MessageKind::Signal);
    r.with_interface(b"com.example".to_vec());
    r.with_member(b"Ping".to_vec());
    assert!(r.matches(&signal_at(b"/x", b"com.example", b"Ping")));
    assert!(!r.matches(&signal_at(b"/x", b"com.example", b"Pong")));
    assert!(!r.matches(&signal_at(b"/x", b"com.other", b"Ping")));
    let call = Message::new_method_call(None, b"/x".to_vec(), None, b"Ping".to_vec());
    assert!(!r.matches(&call));
}

#[test]
fn arg0_matching_applies_to_strings_only() {
    let mut r = MatchRule::new();
    r.with_arg0(b"com.example.Name".to_vec());
    let mut m = signal_at(b"/x", b"i.f", b"S");
    assert!(!r.matches(&m));
    m.body.push(Value::Str(b"com.example.Name".to_vec()));
    assert!(r.matches(&m));
    let mut wrong = signal_at(b"/x", b"i.f", b"S");
    wrong.body.push(Value::Int32(3));
    assert!(!r.matches(&wrong));
    let mut ns = MatchRule::new();
    ns.with_arg0_namespace(b"com.example".to_vec());
    assert!(ns.matches(&m));
}

#[test]
fn rule_text_is_canonical() {
    let mut r = MatchRule::new();
    r.with_interface(b"com.example".to_vec());
    r.with_kind(MessageKind::Signal);
    assert_eq!(r.to_text(), b"type='signal',interface='com.example'".to_vec());
    let empty = MatchRule::new();
    assert_eq!(empty.to_text(), Vec::<u8>::new());
    let mut p = MatchRule::new();
    p.with_path_namespace(b"/a".to_vec());
    assert_eq!(p.to_text(), b"path_namespace='/a'".to_vec());
}

#[test]
fn rule_parse_inverts_to_text() {
    let mut r = MatchRule::new();
    r.with_kind(MessageKind::Signal);
    r.with_interface(b"com.example".to_vec());
    r.with_path_namespace(b"/a/b".to_vec());
    let text = r.to_text();
    let back = MatchRule::parse(&text).expect("canonical text parses");
    assert!(back.same_rule(&r));
    assert_eq!(back.to_text(), text);
    let empty = MatchRule::parse(&Vec::new()).expect("empty text is the empty rule");
    assert!(empty.same_rule(&MatchRule::new()));
}

#[test]
fn rule_parse_accepts_any_field_order() {
    let text = b"member='M',type='signal'".to_vec();
    let r = MatchRule::parse(&text).expect("fields in any order parse");
    let mut want = MatchRule::new();
    want.with_kind(MessageKind::Signal);
    want.with_member(b"M".to_vec());
    assert!(r.same_rule(&want));
}

#[test]
fn rule_parse_rejects_malformed() {
    let bad: [&[u8]; 7] = [
        b"type='bogus'",
        b"frob='x'",
        b"path='/a',path_namespace='/b'",
        b"arg0='x',arg0namespace='y'",
        b"type='signal",
        b"type=signal",
        b"member='a',member='b'",
    ];
    for t in bad {
        assert!(MatchRule::parse(&t.to_vec()).is_err());
    }
}

#[test]
fn rule_equivalence_ignores_build_order() {
    let mut a = MatchRule::new();
    a.with_kind(MessageKind::Signal);
    a.with_member(b"M".to_vec());
    let mut b = MatchRule::new();
    b.with_member(b"M".to_vec());
    b.with_kind(MessageKind::Signal);
    assert!(a.same_rule(&b));
    b.with_sender(b":1.2".to_vec());
    assert!(!a.same_rule(&b));
}

#[test]
fn dispatch_exact_method() {
    let mut d = Dispatcher::new();
    d.register_method(b"/obj".to_vec(), b"com.a".to_vec(), b"Foo".to_vec(), 1);
    d.register_method(b"/obj".to_vec(), b"com.a".to_vec(), b"Bar".to_vec(), 2);
    let call = Message::new_method_call(
        None,
        b"/obj".to_vec(),
        Some(b"com.a".to_vec()),
        b"Bar".to_vec(),
    );
    assert_eq!(d.route_method_call(&call), MethodAction::Invoke(2));
}

#[test]
fn dispatch_replaces_handler() {
    let mut d = Dispatcher::new();
    d.register_method(b"/obj".to_vec(), b"com.a".to_vec(), b"Foo".to_vec(), 1);
    d.register_method(b"/obj".to_vec(), b"com.a".to_vec(), b"Foo".to_vec(), 9);
    let call = Message::new_method_call(
        None,
        b"/obj".to_vec(),
        Some(b"com.a".to_vec()),
        b"Foo".to_vec(),
    );
    assert_eq!(d.route_method_call(&call), MethodAction::Invoke(9));
}

#[test]
fn dispatch_ambiguous_member_is_rejected() {
    // two interfaces at the same path both define Foo; a call naming
    // no interface must not pick one arbitrarily
    let mut d = Dispatcher::new();
    d.register_method(b"/obj".to_vec(), b"com.a".to_vec(), b"Foo".to_vec(), 1);
    d.register_method(b"/obj".to_vec(), b"com.b".to_vec(), b"Foo".to_vec(), 2);
    let vague = Message::new_method_call(None, b"/obj".to_vec(), None, b"Foo".to_vec());
    assert_eq!(
        d.route_method_call(&vague),
        MethodAction::Fail(DispatchError::AmbiguousMethod),
    );
    // naming the interface resolves it
    let exact = Message::new_method_call(
        None,
        b"/obj".to_vec(),
        Some(b"com.b".to_vec()),
        b"Foo".to_vec(),
    );
    assert_eq!(d.route_method_call(&exact), MethodAction::Invoke(2));
    // a uniquely defined member needs no interface
    d.register_method(b"/obj".to_vec(), b"com.a".to_vec(), b"Only".to_vec(), 5);
    let unique = Message::new_method_call(None, b"/obj".to_vec(), None, b"Only".to_vec());
    assert_eq!(d.route_method_call(&unique), MethodAction::Invoke(5));
}

#[test]
fn dispatch_unknowns_and_fallback() {
    let mut d = Dispatcher::new();
    d.register_method(b"/obj".to_vec(), b"com.a".to_vec(), b"Foo".to_vec(), 1);
    let no_path = Message::new_method_call(None, b"/nope".to_vec(), None, b"Foo".to_vec());
    assert_eq!(
        d.route_method_call(&no_path),
        MethodAction::Fail(DispatchError::UnknownObject),
    );
    let no_member = Message::new_method_call(
        None,
        b"/obj".to_vec(),
        Some(b"com.a".to_vec()),
        b"Nope".to_vec(),
    );
    assert_eq!(
        d.route_method_call(&no_member),
        MethodAction::Fail(DispatchError::UnknownMethod),
    );
    d.set_fallback(b"/obj".to_vec(), 42);
    assert_eq!(d.route_method_call(&no_member), MethodAction::Invoke(42));
}

#[test]
fn dispatch_always_answers() {
    // every routed method call ends in exactly one of a return or an
    // error reply
    let mut d = Dispatcher::new();
    d.register_method(b"/obj".to_vec(), b"com.a".to_vec(), b"Foo".to_vec(), 1);
    let calls = [
        Message::new_method_call(None, b"/obj".to_vec(), Some(b"com.a".to_vec()), b"Foo".to_vec()),
        Message::new_method_call(None, b"/obj".to_vec(), None, b"Nope".to_vec()),
        Message::new_method_call(None, b"/missing".to_vec(), None, b"Foo".to_vec()),
    ];
    for mut call in calls {
        call.set_serial(9);
        let reply = match d.route_method_call(&call) {
            MethodAction::Invoke(h) => {
                assert_eq!(h, 1);
                complete_call(&call, HandlerOutcome::Success(vec![Value::Int32(1)]))
            },
            MethodAction::Fail(e) => error_reply(&call, e),
        };
        assert!(
            reply.kind == MessageKind::MethodReturn || reply.kind == MessageKind::Error
        );
        assert_eq!(reply.reply_serial, Some(9));
    }
}

#[test]
fn error_replies_carry_the_reason() {
    let mut call = Message::new_method_call(None, b"/o".to_vec(), None, b"M".to_vec());
    call.set_serial(3);
    call.sender = Some(b":1.7".to_vec());
    let r = error_reply(&call, DispatchError::UnknownObject);
    assert_eq!(r.kind, MessageKind::Error);
    assert_eq!(r.reply_serial, Some(3));
    assert_eq!(r.destination, Some(b":1.7".to_vec()));
    assert_eq!(
        r.error_name,
        Some(b"org.freedesktop.DBus.Error.UnknownObject".to_vec()),
    );
    let a = error_reply(&call, DispatchError::AmbiguousMethod);
    assert_eq!(
        a.error_name,
        Some(b"org.freedesktop.DBus.Error.AmbiguousMethod".to_vec()),
    );
}

#[test]
fn handler_failure_becomes_error_reply() {
    let mut call = Message::new_method_call(None, b"/o".to_vec(), None, b"M".to_vec());
    call.set_serial(4);
    let r = complete_call(
        &call,
        HandlerOutcome::Failure(b"com.example.Error.Sad".to_vec(), Some(b"why".to_vec())),
    );
    assert_eq!(r.kind, MessageKind::Error);
    assert_eq!(r.error_name, Some(b"com.example.Error.Sad".to_vec()));
    assert_eq!(r.reply_serial, Some(4));
    assert_eq!(r.body, vec![Value::Str(b"why".to_vec())]);
    let ok = complete_call(&call, HandlerOutcome::Success(vec![Value::Bool(true)]));
    assert_eq!(ok.kind, MessageKind::MethodReturn);
    assert_eq!(ok.body, vec![Value::Bool(true)]);
}

#[test]
fn signal_fanout_in_registration_order() {
    // A, B and C subscribe with overlapping rules; a matching signal
    // reaches all three, in that order
    let mut d = Dispatcher::new();
    let a = MatchRule::new();
    let mut b = MatchRule::new();
    b.with_kind(MessageKind::Signal);
    let mut c = MatchRule::new();
    c.with_interface(b"com.example".to_vec());
    d.subscribe(a, 1);
    d.subscribe(b, 2);
    d.subscribe(c, 3);
    let sig = signal_at(b"/x", b"com.example", b"S");
    assert_eq!(d.route_signal(&sig), vec![1, 2, 3]);
    // a narrower signal skips only the subscriber whose rule fails
    let other = signal_at(b"/x", b"com.other", b"S");
    assert_eq!(d.route_signal(&other), vec![1, 2]);
    // no subscriber matching is not an error: the list is just empty
    let mut none = Dispatcher::new();
    let mut picky = MatchRule::new();
    picky.with_member(b"Nope".to_vec());
    none.subscribe(picky, 8);
    assert_eq!(none.route_signal(&sig), Vec::<u64>::new());
}
