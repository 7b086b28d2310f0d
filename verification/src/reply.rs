//! The reply orchestrator: the state machine run once per inbound event.
//! It moderates the decoded input, persists it, assembles the completion
//! request (rendered system prompt first, then the full history in
//! order), validates and persists the service's candidate, moderates the
//! outbound text and re-encodes mentions. The two calls a host must make
//! between steps — moderation and chat completion — arrive here as plain
//! events; every decision between them is verified.

use rand::Rng;

use vstd::prelude::*;

use crate::errors::RelayError;
use crate::mentions::{encode_spec, MentionTable};
use crate::msg::{
    content_of, role_of_wire, wire_of_role, Message, MessageView, Role, WireRole,
};
use crate::prompt::{default_template_spec, pairs_of, render, render_result_of, PromptVars};
use crate::store::{
    append_model, conv_of, has_id, history_of, max_tokens_setting, model_setting, Conversation,
    Store, StoreModel,
};

verus! {

/// The sampling temperature applied to every request, in thousandths:
/// one half, fixed for determinism of tone.
pub const TEMPERATURE_PERMILLE: u16 = 500;

/// A structured function invocation on the completion service's wire.
#[derive(Debug, Clone)]
pub struct WireCall {
    pub name: String,
    pub args: String,
}

/// The mathematical shape of a wire function invocation.
pub struct WireCallView {
    pub name: Seq<char>,
    pub args: Seq<char>,
}

impl View for WireCall {
    type V = WireCallView;

    open spec fn view(&self) -> WireCallView {
        WireCallView { name: self.name@, args: self.args@ }
    }
}

/// One message of a completion request, in the service's wire shape.
#[derive(Debug, Clone)]
pub struct WireMessage {
    pub role: WireRole,
    pub content: Option<String>,
    pub name: Option<String>,
    pub function_call: Option<WireCall>,
}

/// The mathematical shape of a wire message.
pub struct WireMessageView {
    pub role: WireRole,
    pub content: Option<Seq<char>>,
    pub name: Option<Seq<char>>,
    pub function_call: Option<WireCallView>,
}

impl View for WireMessage {
    type V = WireMessageView;

    open spec fn view(&self) -> WireMessageView {
        WireMessageView {
            role: self.role,
            content: match self.content {
                Some(ref s) => Some(s@),
                None => None,
            },
            name: match self.name {
                Some(ref s) => Some(s@),
                None => None,
            },
            function_call: match self.function_call {
                Some(ref f) => Some(f@),
                None => None,
            },
        }
    }
}

/// One candidate reply returned by the completion service.
#[derive(Debug, Clone)]
pub struct Candidate {
    pub role: WireRole,
    pub content: Option<String>,
    pub function_call: Option<WireCall>,
}

/// The mathematical shape of a candidate.
pub struct CandidateView {
    pub role: WireRole,
    pub content: Option<Seq<char>>,
    pub function_call: Option<WireCallView>,
}

impl View for Candidate {
    type V = CandidateView;

    open spec fn view(&self) -> CandidateView {
        CandidateView {
            role: self.role,
            content: match self.content {
                Some(ref s) => Some(s@),
                None => None,
            },
            function_call: match self.function_call {
                Some(ref f) => Some(f@),
                None => None,
            },
        }
    }
}

/// One function-call declaration attached to a request; its parameter
/// schema travels as text for the host to pass along.
#[derive(Debug, Clone)]
pub struct FunctionDecl {
    pub name: String,
    pub description: String,
    pub parameters: String,
}

/// A fully assembled completion request.
#[derive(Debug, Clone)]
pub struct CompletionRequest {
    pub model: String,
    pub max_tokens: u16,
    pub temperature_permille: u16,
    pub messages: Vec<WireMessage>,
    pub functions: Vec<FunctionDecl>,
}

/// The wire shape of a stored message: text travels as `content`, a
/// function invocation as `function_call` (with the author name beside
/// it), each conversion total for its case.
pub open spec fn wire_of(m: MessageView) -> WireMessageView {
    match m {
        MessageView::Content { role, content } => WireMessageView {
            role: wire_of_role(role),
            content: Some(content),
            name: None,
            function_call: None,
        },
        MessageView::Function { role, fn_name, fn_args } => WireMessageView {
            role: wire_of_role(role),
            content: None,
            name: Some(fn_name),
            function_call: Some(WireCallView { name: fn_name, args: fn_args }),
        },
    }
}

/// Converts a stored message to the service's wire shape.
pub fn to_wire(m: &Message) -> (w: WireMessage)
    ensures
        w@ == wire_of(m@),
{
    match m {
        Message::Content { role, content } => WireMessage {
            role: role.to_wire(),
            content: Some(content.clone()),
            name: None,
            function_call: None,
        },
        Message::Function { role, fn_name, fn_args } => WireMessage {
            role: role.to_wire(),
            content: None,
            name: Some(fn_name.clone()),
            function_call: Some(WireCall { name: fn_name.clone(), args: fn_args.clone() }),
        },
    }
}

/// A candidate read back as a stored message: exactly one of literal
/// text and a function invocation must be present; anything else is a
/// malformed response.
pub open spec fn message_of_candidate(c: CandidateView) -> Option<MessageView> {
    match (c.content, c.function_call) {
        (Some(text), None) => Some(
            MessageView::Content { role: role_of_wire(c.role), content: text },
        ),
        (None, Some(f)) => Some(
            MessageView::Function { role: role_of_wire(c.role), fn_name: f.name, fn_args: f.args },
        ),
        _ => None,
    }
}

/// Reads a candidate back as a stored message; `None` on a malformed
/// candidate.
pub fn candidate_to_message(c: &Candidate) -> (r: Option<Message>)
    ensures
        match r {
            Some(m) => message_of_candidate(c@) == Some(m@),
            None => message_of_candidate(c@) is None,
        },
{
    match (&c.content, &c.function_call) {
        (Some(text), None) => Some(
            Message::Content { role: Role::from_wire(c.role), content: text.clone() },
        ),
        (None, Some(f)) => Some(
            Message::Function {
                role: Role::from_wire(c.role),
                fn_name: f.name.clone(),
                fn_args: f.args.clone(),
            },
        ),
        _ => None,
    }
}

/// Whether a candidate is usable: its role is `assistant`, or it carries
/// a function invocation.
pub open spec fn eligible(c: CandidateView) -> bool {
    c.role is Assistant || c.function_call is Some
}

/// The index of the first usable candidate, or -1 when none is.
pub open spec fn first_eligible(cs: Seq<CandidateView>) -> int
    decreases cs.len(),
{
    if cs.len() == 0 {
        -1
    } else if eligible(cs[0]) {
        0
    } else {
        let rest = first_eligible(cs.skip(1));
        if rest == -1 {
            -1
        } else {
            rest + 1
        }
    }
}

/// `first_eligible` is the least usable index, when one exists.
proof fn lemma_first_eligible(cs: Seq<CandidateView>, i: int)
    requires
        0 <= i <= cs.len(),
        forall|j: int| 0 <= j < i ==> !eligible(#[trigger] cs[j]),
        i < cs.len() ==> eligible(cs[i]),
    ensures
        i < cs.len() ==> first_eligible(cs) == i,
        i == cs.len() ==> first_eligible(cs) == -1,
    decreases cs.len(),
{
    if cs.len() == 0 {
    } else if eligible(cs[0]) {
        assert(i == 0);
    } else {
        let rest = cs.skip(1);
        assert(forall|j: int| 0 <= j < i - 1 ==> !eligible(#[trigger] rest[j]));
        lemma_first_eligible(rest, i - 1);
    }
}

/// What the input-moderation verdict leads to.
pub enum InputOutcome {
    /// The inbound text was flagged: nothing is persisted, no completion
    /// is requested; the caller answers with a deflection.
    Flagged,
    /// The inbound text is clean and now persisted; the system-prompt
    /// template to render next.
    Proceed { template: String },
}

/// The system-prompt template of a conversation: its override when one
/// is set, the built-in template otherwise.
pub open spec fn template_setting(m: StoreModel, id: u64) -> Seq<char> {
    match conv_of(m, id).prompt_override {
        Some(s) => s,
        None => default_template_spec(),
    }
}

/// The view of a user message holding the decoded inbound text.
pub open spec fn user_message(text: Seq<char>) -> MessageView {
    MessageView::Content { role: Role::User, content: text }
}

/// Acts on the input-moderation verdict. A flagged event is dropped
/// whole — no persistence, no completion call. A clean event has its
/// decoded text persisted as a `user` message, and the conversation's
/// prompt template is handed back for rendering.
pub fn handle_input_verdict(
    store: &mut Store,
    c: Conversation,
    decoded: &str,
    flagged: bool,
) -> (r: Result<InputOutcome, RelayError>)
    requires
        old(store).wf(),
        has_id(old(store)@, c.0),
    ensures
        final(store).wf(),
        has_id(final(store)@, c.0),
        flagged ==> final(store)@ == old(store)@ && r == Ok::<InputOutcome, RelayError>(
            InputOutcome::Flagged,
        ),
        !flagged ==> (r is Err <==> old(store)@.entries.len() >= u64::MAX),
        !flagged ==> match r {
            Ok(o) => (o matches InputOutcome::Proceed { template } && template@
                == template_setting(old(store)@, c.0) && final(store)@ == append_model(
                old(store)@,
                c.0,
                user_message(decoded@),
            )),
            Err(e) => e == RelayError::Persistence && final(store)@ == old(store)@,
        },
{
    if flagged {
        return Ok(InputOutcome::Flagged);
    }
    let template = match store.get_prompt(c) {
        Some(s) => s,
        None => crate::prompt::default_template(),
    };
    let msg = Message::new(Role::User, decoded);
    match store.append(c, msg) {
        Ok(()) => Ok(InputOutcome::Proceed { template }),
        Err(e) => Err(e),
    }
}

/// Builds the completion request around an already rendered system
/// prompt: the prompt first, then the whole history in ascending order,
/// under the conversation's model and token budget and the fixed
/// sampling temperature.
pub fn build_request(
    store: &Store,
    c: Conversation,
    prompt: &str,
    functions: Vec<FunctionDecl>,
) -> (req: CompletionRequest)
    requires
        store.wf(),
        has_id(store@, c.0),
    ensures
        req.messages@.map_values(|m: WireMessage| m@) == seq![
            wire_of(MessageView::Content { role: Role::System, content: prompt@ }),
        ] + history_of(store@, c.0).map_values(|m: MessageView| wire_of(m)),
        req.model@ == model_setting(store@, c.0),
        req.max_tokens == max_tokens_setting(store@, c.0),
        req.temperature_permille == TEMPERATURE_PERMILLE,
        req.functions == functions,
{
    let hist = store.history(c);
    let mut messages: Vec<WireMessage> = Vec::new();
    let system = Message::new(Role::System, prompt);
    messages.push(to_wire(&system));
    proof {
        assert(messages@.map_values(|m: WireMessage| m@) =~= seq![
            wire_of(MessageView::Content { role: Role::System, content: prompt@ }),
        ]);
    }
    let ghost head = seq![wire_of(MessageView::Content { role: Role::System, content: prompt@ })];
    let ghost hview = history_of(store@, c.0);
    let n = hist.len();
    let mut i: usize = 0;
    while i < n
        invariant
            n == hist@.len(),
            0 <= i <= n,
            hist@.map_values(|m: Message| m@) == hview,
            messages@.map_values(|m: WireMessage| m@) == head + hview.take(i as int).map_values(
                |m: MessageView| wire_of(m),
            ),
        decreases n - i,
    {
        let w = to_wire(&hist[i]);
        proof {
            assert(hist@[i as int]@ == hview[i as int]);
        }
        let ghost before = messages@;
        messages.push(w);
        proof {
            assert(hview.take(i + 1 as int) =~= hview.take(i as int).push(hview[i as int]));
            assert(hview.take(i + 1 as int).map_values(|m: MessageView| wire_of(m)) =~= hview.take(
                i as int,
            ).map_values(|m: MessageView| wire_of(m)).push(wire_of(hview[i as int])));
            assert(messages@.map_values(|m: WireMessage| m@) =~= before.map_values(
                |m: WireMessage| m@,
            ).push(w@));
            assert(messages@.map_values(|m: WireMessage| m@) =~= head + hview.take(
                i + 1 as int,
            ).map_values(|m: MessageView| wire_of(m)));
        }
        i = i + 1;
    }
    proof {
        assert(hview.take(n as int) =~= hview);
    }
    let model = store.model(c);
    let max_tokens = store.max_tokens(c);
    CompletionRequest {
        model,
        max_tokens,
        temperature_permille: TEMPERATURE_PERMILLE,
        messages,
        functions,
    }
}

/// Renders the system prompt and assembles the completion request; a
/// rendering failure surfaces as a template failure and nothing else is
/// touched.
pub fn assemble_request(
    store: &Store,
    c: Conversation,
    template: &str,
    vars: &PromptVars,
    functions: Vec<FunctionDecl>,
) -> (r: Result<CompletionRequest, RelayError>)
    requires
        store.wf(),
        has_id(store@, c.0),
    ensures
        r is Ok <==> render_result_of(template@, pairs_of(*vars)) is Some,
        match r {
            Ok(req) => {
                &&& req.messages@.map_values(|m: WireMessage| m@) == seq![
                    wire_of(
                        MessageView::Content {
                            role: Role::System,
                            content: render_result_of(template@, pairs_of(*vars))->Some_0,
                        },
                    ),
                ] + history_of(store@, c.0).map_values(|m: MessageView| wire_of(m))
                &&& req.model@ == model_setting(store@, c.0)
                &&& req.max_tokens == max_tokens_setting(store@, c.0)
                &&& req.temperature_permille == TEMPERATURE_PERMILLE
                &&& req.functions == functions
            },
            Err(e) => e == RelayError::Template,
        },
{
    match render(template, vars) {
        Ok(prompt) => Ok(build_request(store, c, prompt.as_str(), functions)),
        Err(e) => Err(e),
    }
}

/// Acts on the completion service's answer. A transport failure (`None`)
/// aborts the event with a completion failure and no side effect. From a
/// well-formed answer the first candidate whose role is `assistant` or
/// which carries a function invocation is taken: none means the event
/// fails with a no-reply failure and nothing is persisted; a malformed
/// candidate (both text and invocation, or neither) is a completion
/// failure, also with nothing persisted. The usable candidate is
/// persisted and handed back — the message for the host to write
/// through, its plain-text rendering for moderation.
pub fn handle_completion(
    store: &mut Store,
    c: Conversation,
    outcome: Option<Vec<Candidate>>,
) -> (r: Result<(String, Message), RelayError>)
    requires
        old(store).wf(),
        has_id(old(store)@, c.0),
    ensures
        final(store).wf(),
        outcome is None ==> r == Err::<(String, Message), RelayError>(RelayError::Completion)
            && final(store)@ == old(store)@,
        outcome matches Some(cs) ==> {
            let views = cs@.map_values(|x: Candidate| x@);
            let fe = first_eligible(views);
            &&& fe == -1 ==> r == Err::<(String, Message), RelayError>(RelayError::NoReply)
                && final(store)@ == old(store)@
            &&& fe >= 0 ==> match message_of_candidate(views[fe]) {
                Some(m) => {
                    &&& (r is Err <==> old(store)@.entries.len() >= u64::MAX)
                    &&& match r {
                        Ok((text, persisted)) => final(store)@ == append_model(
                            old(store)@,
                            c.0,
                            m,
                        ) && persisted@ == m && text@ == content_of(m),
                        Err(e) => e == RelayError::Persistence && final(store)@ == old(store)@,
                    }
                },
                None => r == Err::<(String, Message), RelayError>(RelayError::Completion)
                    && final(store)@ == old(store)@,
            }
        },
{
    let cs = match outcome {
        Some(cs) => cs,
        None => {
            return Err(RelayError::Completion);
        },
    };
    let ghost views = cs@.map_values(|x: Candidate| x@);
    let n = cs.len();
    let mut i: usize = 0;
    while i < n
        invariant
            store == old(store),
            store.wf(),
            has_id(store@, c.0),
            outcome == Some(cs),
            n == cs@.len(),
            0 <= i <= n,
            views == cs@.map_values(|x: Candidate| x@),
            forall|j: int| 0 <= j < i ==> !eligible(#[trigger] views[j]),
        decreases n - i,
    {
        let is_assistant = match cs[i].role {
            WireRole::Assistant => true,
            _ => false,
        };
        let has_call = match &cs[i].function_call {
            Some(_) => true,
            None => false,
        };
        if is_assistant || has_call {
            proof {
                assert(eligible(views[i as int]));
                lemma_first_eligible(views, i as int);
            }
            let msg = match candidate_to_message(&cs[i]) {
                Some(m) => m,
                None => {
                    return Err(RelayError::Completion);
                },
            };
            let text = msg.content();
            let persisted = msg.clone();
            match store.append(c, msg) {
                Ok(()) => {
                    return Ok((text, persisted));
                },
                Err(e) => {
                    return Err(e);
                },
            }
        }
        proof {
            assert(!eligible(views[i as int]));
        }
        i = i + 1;
    }
    proof {
        lemma_first_eligible(views, n as int);
    }
    Err(RelayError::NoReply)
}

/// What the output-moderation verdict leads to.
pub enum OutputOutcome {
    /// The candidate's text was flagged: it is discarded (the persisted
    /// record stands) and the caller answers with a deflection.
    Deflect,
    /// The text to relay, with cached display names encoded back to
    /// reference tokens.
    Deliver { text: String },
}

/// Acts on the output-moderation verdict. Flagged text is discarded in
/// favour of a deflection; clean text has its mentions encoded back and
/// is delivered.
pub fn handle_output_verdict(text: &str, flagged: bool, table: &MentionTable) -> (r: OutputOutcome)
    requires
        table.wf(),
    ensures
        flagged ==> r is Deflect,
        !flagged ==> (r matches OutputOutcome::Deliver { text: out } && out@ == encode_spec(
            text@,
            table@,
        )),
{
    if flagged {
        OutputOutcome::Deflect
    } else {
        OutputOutcome::Deliver { text: crate::mentions::encode(text, table) }
    }
}

/// The fixed catalog of stock refusal phrases.
pub open spec fn deflect_catalog() -> Seq<Seq<char>> {
    seq![
        "Let's talk about something else."@,
        "I'd rather not get into that one."@,
        "How about a different topic?"@,
        "That's not something I can help with."@,
        "Crikey, I'm not sure what to say."@,
    ]
}

/// Relies on rand::thread_rng and Rng::gen_range: some index below the
/// bound; nothing more is promised of a random value.
#[verifier::external_body]
fn pick_index(n: usize) -> (r: usize)
    requires
        n >= 1,
    ensures
        r < n,
{
    rand::thread_rng().gen_range(0..n)
}

fn deflect_phrase(i: usize) -> (r: String)
    requires
        i < 5,
    ensures
        r@ == deflect_catalog()[i as int],
{
    if i == 0 {
        "Let's talk about something else.".to_owned()
    } else if i == 1 {
        "I'd rather not get into that one.".to_owned()
    } else if i == 2 {
        "How about a different topic?".to_owned()
    } else if i == 3 {
        "That's not something I can help with.".to_owned()
    } else {
        "Crikey, I'm not sure what to say.".to_owned()
    }
}

/// One stock refusal phrase, drawn at random from the fixed catalog; a
/// deflected event always answers with a line from the catalog and
/// nothing else.
pub fn deflect_reply() -> (r: String)
    ensures
        exists|i: int| 0 <= i < deflect_catalog().len() && r@ == deflect_catalog()[i],
{
    let i = pick_index(5);
    let p = deflect_phrase(i);
    proof {
        assert(p@ == deflect_catalog()[i as int]);
    }
    p
}

/// Where an inbound event took place, as far as conversation naming is
/// concerned.
pub enum ChannelInfo {
    /// A server channel, possibly a thread with a parent channel.
    Guild { name: String, parent: Option<String> },
    /// A direct conversation with one counterpart.
    Private { recipient: String },
    /// Anything else the gateway may deliver.
    Unknown,
}

/// The mathematical shape of a channel description.
pub enum ChannelInfoView {
    Guild { name: Seq<char>, parent: Option<Seq<char>> },
    Private { recipient: Seq<char> },
    Unknown,
}

impl View for ChannelInfo {
    type V = ChannelInfoView;

    open spec fn view(&self) -> ChannelInfoView {
        match self {
            ChannelInfo::Guild { name, parent } => ChannelInfoView::Guild {
                name: name@,
                parent: match parent {
                    Some(ref p) => Some(p@),
                    None => None,
                },
            },
            ChannelInfo::Private { recipient } => ChannelInfoView::Private { recipient: recipient@ },
            ChannelInfo::Unknown => ChannelInfoView::Unknown,
        }
    }
}

/// The conversation name an event belongs to: thread children are named
/// `#parent:child`, top-level channels `#name`, private channels by the
/// counterpart's display name.
pub open spec fn conversation_name_spec(c: ChannelInfoView) -> Seq<char> {
    match c {
        ChannelInfoView::Guild { name, parent } => match parent {
            Some(p) => seq!['#'] + p + seq![':'] + name,
            None => seq!['#'] + name,
        },
        ChannelInfoView::Private { recipient } => recipient,
        ChannelInfoView::Unknown => "unknown"@,
    }
}

/// Derives the conversation name for an event.
pub fn conversation_name(c: &ChannelInfo) -> (r: String)
    ensures
        r@ == conversation_name_spec(c@),
{
    match c {
        ChannelInfo::Guild { name, parent } => {
            let mut v: Vec<char> = Vec::new();
            v.push('#');
            match parent {
                Some(p) => {
                    let pv = crate::text::string_to_chars(p.as_str());
                    crate::text::extend_chars(&mut v, &pv, 0, pv.len());
                    proof {
                        assert(pv@.subrange(0, pv@.len() as int) =~= pv@);
                    }
                    v.push(':');
                },
                None => {},
            }
            let nv = crate::text::string_to_chars(name.as_str());
            crate::text::extend_chars(&mut v, &nv, 0, nv.len());
            let r = crate::text::chars_to_string(&v);
            proof {
                assert(nv@.subrange(0, nv@.len() as int) =~= nv@);
                assert(r@ =~= conversation_name_spec(c@));
            }
            r
        },
        ChannelInfo::Private { recipient } => recipient.clone(),
        ChannelInfo::Unknown => "unknown".to_owned(),
    }
}

} // verus!
