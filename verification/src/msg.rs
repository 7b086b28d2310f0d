//! Messages and speaker roles, with their two external forms: the compact
//! persisted representation (one byte per role, a tagged text blob per
//! payload) and the completion service's wire vocabulary. Both mappings
//! are total and proved to round-trip.

use vstd::prelude::*;

use crate::digits::{all_digits, digits_of, lemma_digits_of_num, num_of, parse_u64, u64_to_digits};

verus! {

/// The speaker category of a message.
#[derive(Debug, Clone, Copy, PartialEq, Eq, Structural)]
pub enum Role {
    System,
    User,
    Assistant,
    Function,
}

/// The completion service's own role vocabulary. The host program
/// converts between this and the service client's role type; the
/// mapping from `Role` is kept total and unambiguous here.
#[derive(Debug, Clone, Copy, PartialEq, Eq, Structural)]
pub enum WireRole {
    System,
    User,
    Assistant,
    Function,
}

/// The compact persisted form of a role.
pub open spec fn role_byte(r: Role) -> u8 {
    match r {
        Role::System => 0,
        Role::User => 1,
        Role::Assistant => 2,
        Role::Function => 3,
    }
}

/// Reading a persisted role byte back; bytes outside the vocabulary are
/// a decode failure.
pub open spec fn byte_role(b: u8) -> Option<Role> {
    if b == 0 {
        Some(Role::System)
    } else if b == 1 {
        Some(Role::User)
    } else if b == 2 {
        Some(Role::Assistant)
    } else if b == 3 {
        Some(Role::Function)
    } else {
        None
    }
}

pub open spec fn wire_of_role(r: Role) -> WireRole {
    match r {
        Role::System => WireRole::System,
        Role::User => WireRole::User,
        Role::Assistant => WireRole::Assistant,
        Role::Function => WireRole::Function,
    }
}

pub open spec fn role_of_wire(w: WireRole) -> Role {
    match w {
        WireRole::System => Role::System,
        WireRole::User => Role::User,
        WireRole::Assistant => Role::Assistant,
        WireRole::Function => Role::Function,
    }
}

impl Role {
    /// The persisted form of this role.
    pub fn to_byte(self) -> (b: u8)
        ensures
            b == role_byte(self),
    {
        match self {
            Role::System => 0,
            Role::User => 1,
            Role::Assistant => 2,
            Role::Function => 3,
        }
    }

    /// Decodes a persisted role byte; `None` on a malformed byte.
    pub fn from_byte(b: u8) -> (r: Option<Role>)
        ensures
            r == byte_role(b),
    {
        if b == 0 {
            Some(Role::System)
        } else if b == 1 {
            Some(Role::User)
        } else if b == 2 {
            Some(Role::Assistant)
        } else if b == 3 {
            Some(Role::Function)
        } else {
            None
        }
    }

    /// The completion-service form of this role.
    pub fn to_wire(self) -> (w: WireRole)
        ensures
            w == wire_of_role(self),
    {
        match self {
            Role::System => WireRole::System,
            Role::User => WireRole::User,
            Role::Assistant => WireRole::Assistant,
            Role::Function => WireRole::Function,
        }
    }

    /// Reads a completion-service role back into the store's vocabulary.
    pub fn from_wire(w: WireRole) -> (r: Role)
        ensures
            r == role_of_wire(w),
    {
        match w {
            WireRole::System => Role::System,
            WireRole::User => Role::User,
            WireRole::Assistant => Role::Assistant,
            WireRole::Function => Role::Function,
        }
    }
}

/// Persisted form to `Role` and back is the identity, on every byte the
/// persisted form uses.
pub proof fn lemma_role_byte_round_trip(r: Role, b: u8)
    ensures
        byte_role(role_byte(r)) == Some(r),
        byte_role(b) is Some ==> role_byte(byte_role(b)->Some_0) == b,
{
}

/// `Role` to the service vocabulary and back is the identity, in both
/// directions.
pub proof fn lemma_role_wire_round_trip(r: Role, w: WireRole)
    ensures
        role_of_wire(wire_of_role(r)) == r,
        wire_of_role(role_of_wire(w)) == w,
{
}

/// One message of a conversation: either literal text or a structured
/// function invocation (name plus argument payload).
#[derive(Debug)]
pub enum Message {
    Content { role: Role, content: String },
    Function { role: Role, fn_name: String, fn_args: String },
}

/// The mathematical shape of a message.
pub enum MessageView {
    Content { role: Role, content: Seq<char> },
    Function { role: Role, fn_name: Seq<char>, fn_args: Seq<char> },
}

impl View for Message {
    type V = MessageView;

    open spec fn view(&self) -> MessageView {
        match self {
            Message::Content { role, content } => MessageView::Content {
                role: *role,
                content: content@,
            },
            Message::Function { role, fn_name, fn_args } => MessageView::Function {
                role: *role,
                fn_name: fn_name@,
                fn_args: fn_args@,
            },
        }
    }
}

impl Clone for Message {
    /// An equal message.
    fn clone(&self) -> (res: Self)
        ensures
            res@ == self@,
    {
        match self {
            Message::Content { role, content } => Message::Content {
                role: *role,
                content: content.clone(),
            },
            Message::Function { role, fn_name, fn_args } => Message::Function {
                role: *role,
                fn_name: fn_name.clone(),
                fn_args: fn_args.clone(),
            },
        }
    }
}

/// The speaker of a message.
pub open spec fn role_of(m: MessageView) -> Role {
    match m {
        MessageView::Content { role, .. } => role,
        MessageView::Function { role, .. } => role,
    }
}

/// The plain-text rendering of a message: the text itself, or
/// `name(arguments)` for a function invocation.
pub open spec fn content_of(m: MessageView) -> Seq<char> {
    match m {
        MessageView::Content { content, .. } => content,
        MessageView::Function { fn_name, fn_args, .. } => fn_name + seq!['('] + fn_args + seq![')'],
    }
}

impl Message {
    /// A literal text message.
    pub fn new(role: Role, content: &str) -> (m: Message)
        ensures
            m@ == (MessageView::Content { role, content: content@ }),
    {
        Message::Content { role, content: content.to_owned() }
    }

    /// The speaker of this message.
    pub fn role(&self) -> (r: Role)
        ensures
            r == role_of(self@),
    {
        match self {
            Message::Content { role, .. } => *role,
            Message::Function { role, .. } => *role,
        }
    }

    /// The plain-text rendering of this message.
    pub fn content(&self) -> (r: String)
        ensures
            r@ == content_of(self@),
    {
        match self {
            Message::Content { content, .. } => content.clone(),
            Message::Function { fn_name, fn_args, .. } => {
                let mut v = crate::text::string_to_chars(fn_name.as_str());
                v.push('(');
                let args = crate::text::string_to_chars(fn_args.as_str());
                crate::text::extend_chars(&mut v, &args, 0, args.len());
                v.push(')');
                let r = crate::text::chars_to_string(&v);
                proof {
                    assert(args@.subrange(0, args@.len() as int) =~= args@);
                    assert(r@ =~= content_of(self@));
                }
                r
            },
        }
    }
}

/// The persisted form of a message payload: a self-describing tagged
/// text, distinguishable from plain text on read. Literal text carries a
/// `t` tag; a function invocation carries an `f` tag, the decimal length
/// of the name, a separating colon, the name and the arguments.
pub open spec fn payload_of(m: MessageView) -> Seq<char> {
    match m {
        MessageView::Content { content, .. } => seq!['t'] + content,
        MessageView::Function { fn_name, fn_args, .. } => seq!['f'] + digits_of(fn_name.len())
            + seq![':'] + fn_name + fn_args,
    }
}

/// Reading a persisted payload back, given the role persisted beside it.
/// Any text not produced by `payload_of` is a decode failure.
pub open spec fn parse_payload(blob: Seq<char>, role: Role) -> Option<MessageView> {
    if blob.len() >= 1 && blob[0] == 't' {
        Some(MessageView::Content { role, content: blob.skip(1) })
    } else if blob.len() >= 1 && blob[0] == 'f' {
        let k = crate::digits::digit_run(blob, 1);
        if k >= 1 && 1 + k < blob.len() && blob[1 + k] == ':' {
            let name_len = num_of(blob.subrange(1, 1 + k));
            if 2 + k + name_len <= blob.len() {
                Some(
                    MessageView::Function {
                        role,
                        fn_name: blob.subrange(2 + k, 2 + k + name_len),
                        fn_args: blob.skip(2 + k + name_len),
                    },
                )
            } else {
                None
            }
        } else {
            None
        }
    } else {
        None
    }
}

/// Persisting a payload and reading it back restores the message.
pub proof fn lemma_payload_round_trip(m: MessageView)
    ensures
        parse_payload(payload_of(m), role_of(m)) == Some(m),
{
    match m {
        MessageView::Content { role, content } => {
            let blob = payload_of(m);
            assert(blob[0] == 't');
            assert(blob.skip(1) =~= content);
        },
        MessageView::Function { role, fn_name, fn_args } => {
            let blob = payload_of(m);
            let ds = digits_of(fn_name.len());
            lemma_digits_of_num(fn_name.len());
            let k = ds.len() as int;
            assert(blob[0] == 'f');
            assert forall|i: int| 1 <= i < 1 + k implies crate::digits::is_digit(
                #[trigger] blob[i],
            ) by {
                assert(blob[i] == ds[i - 1]);
            }
            assert(blob[1 + k] == ':');
            crate::digits::lemma_digit_run_exact(blob, 1, k);
            assert(blob.subrange(1, 1 + k) =~= ds);
            assert(num_of(ds) == fn_name.len());
            assert(blob.subrange(2 + k, 2 + k + fn_name.len()) =~= fn_name);
            assert(blob.skip(2 + k + fn_name.len() as int) =~= fn_args);
        },
    }
}

/// Persists a message payload.
pub fn encode_payload(m: &Message) -> (r: String)
    ensures
        r@ == payload_of(m@),
{
    match m {
        Message::Content { content, .. } => {
            let mut v: Vec<char> = Vec::new();
            v.push('t');
            let cs = crate::text::string_to_chars(content.as_str());
            crate::text::extend_chars(&mut v, &cs, 0, cs.len());
            let r = crate::text::chars_to_string(&v);
            proof {
                assert(cs@.subrange(0, cs@.len() as int) =~= cs@);
                assert(r@ =~= payload_of(m@));
            }
            r
        },
        Message::Function { fn_name, fn_args, .. } => {
            let mut v: Vec<char> = Vec::new();
            v.push('f');
            let name = crate::text::string_to_chars(fn_name.as_str());
            let ds = u64_to_digits(name.len() as u64);
            crate::text::extend_chars(&mut v, &ds, 0, ds.len());
            v.push(':');
            crate::text::extend_chars(&mut v, &name, 0, name.len());
            let args = crate::text::string_to_chars(fn_args.as_str());
            crate::text::extend_chars(&mut v, &args, 0, args.len());
            let r = crate::text::chars_to_string(&v);
            proof {
                assert(ds@.subrange(0, ds@.len() as int) =~= ds@);
                assert(name@.subrange(0, name@.len() as int) =~= name@);
                assert(args@.subrange(0, args@.len() as int) =~= args@);
                assert(r@ =~= payload_of(m@));
            }
            r
        },
    }
}

/// Reads a persisted payload back; `None` on malformed text.
pub fn decode_payload(blob: &str, role: Role) -> (r: Option<Message>)
    ensures
        match r {
            Some(m) => parse_payload(blob@, role) == Some(m@),
            None => parse_payload(blob@, role) is None,
        },
{
    let v = crate::text::string_to_chars(blob);
    if v.len() == 0 {
        return None;
    }
    let c0 = v[0];
    if c0 == 't' {
        let content = crate::text::subrange_chars(&v, 1, v.len());
        let s = crate::text::chars_to_string(&content);
        proof {
            assert(blob@.skip(1) =~= v@.subrange(1, v@.len() as int));
        }
        Some(Message::Content { role, content: s })
    } else if c0 == 'f' {
        let mut i: usize = 1;
        loop
            invariant
                1 <= i <= v@.len(),
                forall|j: int| 1 <= j < i ==> crate::digits::is_digit(#[trigger] v@[j]),
            ensures
                1 <= i <= v@.len(),
                i == v@.len() || !crate::digits::is_digit(v@[i as int]),
                forall|j: int| 1 <= j < i ==> crate::digits::is_digit(#[trigger] v@[j]),
            decreases v@.len() - i,
        {
            if i >= v.len() {
                break ;
            }
            if !crate::digits::char_is_digit(v[i]) {
                break ;
            }
            i = i + 1;
        }
        proof {
            crate::digits::lemma_digit_run_exact(v@, 1, i - 1);
        }
        if i == 1 || i >= v.len() {
            return None;
        }
        let c = v[i];
        if c != ':' {
            return None;
        }
        let parsed = parse_u64(&v, 1, i);
        match parsed {
            None => {
                proof {
                    assert(all_digits(v@.subrange(1, i as int)));
                    assert(num_of(v@.subrange(1, i as int)) > u64::MAX);
                }
                None
            },
            Some(nl) => {
                let rest: usize = v.len() - i - 1;
                if nl > rest as u64 {
                    proof {
                        assert(2 + (i - 1) + num_of(v@.subrange(1, i as int)) > v@.len());
                    }
                    return None;
                }
                let nl_us = nl as usize;
                let name_v = crate::text::subrange_chars(&v, i + 1, i + 1 + nl_us);
                let args_v = crate::text::subrange_chars(&v, i + 1 + nl_us, v.len());
                let fn_name = crate::text::chars_to_string(&name_v);
                let fn_args = crate::text::chars_to_string(&args_v);
                proof {
                    let k = (i - 1) as int;
                    let name_len = num_of(blob@.subrange(1, 1 + k)) as int;
                    assert(name_len == nl);
                    assert(blob@.subrange(2 + k, 2 + k + name_len) =~= v@.subrange(
                        i + 1 as int,
                        i + 1 + nl_us as int,
                    ));
                    assert(blob@.skip(2 + k + name_len) =~= v@.subrange(
                        i + 1 + nl_us as int,
                        v@.len() as int,
                    ));
                }
                Some(Message::Function { role, fn_name, fn_args })
            },
        }
    } else {
        None
    }
}

} // verus!
