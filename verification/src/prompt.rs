//! The prompt assembler: renders the system-prompt template with the
//! live context of an inbound event (date, server and channel metadata,
//! participant nicknames). Rendering is the template engine's work,
//! relied on as a pure function of template text and variables.

use vstd::prelude::*;

use crate::errors::RelayError;

verus! {

/// The live context a system prompt is rendered with.
pub struct PromptVars {
    pub user_nick: String,
    pub bot_nick: String,
    pub date: String,
    pub server_name: Option<String>,
    pub channel_name: Option<String>,
    pub channel_topic: Option<String>,
}

/// The named variables handed to the renderer, in order: the three that
/// are always present, then whichever of the optional ones are known.
pub open spec fn pairs_of(v: PromptVars) -> Seq<(Seq<char>, Seq<char>)> {
    let base = seq![
        ("user_nick"@, v.user_nick@),
        ("bot_nick"@, v.bot_nick@),
        ("date"@, v.date@),
    ];
    let s1 = if v.server_name is Some {
        base.push(("server_name"@, v.server_name->Some_0@))
    } else {
        base
    };
    let s2 = if v.channel_name is Some {
        s1.push(("channel_name"@, v.channel_name->Some_0@))
    } else {
        s1
    };
    if v.channel_topic is Some {
        s2.push(("channel_topic"@, v.channel_topic->Some_0@))
    } else {
        s2
    }
}

impl PromptVars {
    /// The variables as name-value pairs.
    pub fn to_pairs(&self) -> (r: Vec<(String, String)>)
        ensures
            r@.map_values(|p: (String, String)| (p.0@, p.1@)) == pairs_of(*self),
    {
        let mut r: Vec<(String, String)> = Vec::new();
        r.push(("user_nick".to_owned(), self.user_nick.clone()));
        r.push(("bot_nick".to_owned(), self.bot_nick.clone()));
        r.push(("date".to_owned(), self.date.clone()));
        proof {
            assert(r@.map_values(|p: (String, String)| (p.0@, p.1@)) =~= seq![
                ("user_nick"@, self.user_nick@),
                ("bot_nick"@, self.bot_nick@),
                ("date"@, self.date@),
            ]);
        }
        match &self.server_name {
            Some(s) => {
                let ghost before = r@;
                r.push(("server_name".to_owned(), s.clone()));
                proof {
                    assert(r@.map_values(|p: (String, String)| (p.0@, p.1@)) =~= before.map_values(
                        |p: (String, String)| (p.0@, p.1@),
                    ).push(("server_name"@, self.server_name->Some_0@)));
                }
            },
            None => {},
        }
        match &self.channel_name {
            Some(s) => {
                let ghost before = r@;
                r.push(("channel_name".to_owned(), s.clone()));
                proof {
                    assert(r@.map_values(|p: (String, String)| (p.0@, p.1@)) =~= before.map_values(
                        |p: (String, String)| (p.0@, p.1@),
                    ).push(("channel_name"@, self.channel_name->Some_0@)));
                }
            },
            None => {},
        }
        match &self.channel_topic {
            Some(s) => {
                let ghost before = r@;
                r.push(("channel_topic".to_owned(), s.clone()));
                proof {
                    assert(r@.map_values(|p: (String, String)| (p.0@, p.1@)) =~= before.map_values(
                        |p: (String, String)| (p.0@, p.1@),
                    ).push(("channel_topic"@, self.channel_topic->Some_0@)));
                }
            },
            None => {},
        }
        r
    }
}

#[verifier::external_type_specification]
#[verifier::external_body]
pub struct ExTemplateError(minijinja::Error);

/// What the template engine makes of a template and named string
/// variables: the rendered text, or `None` for the inputs the engine
/// rejects (malformed syntax, failed evaluation). Rendering in a fresh
/// default environment is a pure function of both arguments — success
/// included — and far too large to restate.
pub uninterp spec fn render_result_of(
    template: Seq<char>,
    vars: Seq<(Seq<char>, Seq<char>)>,
) -> Option<Seq<char>>;

/// Relies on minijinja's Environment::new and Environment::render_str:
/// rendering a template in a fresh default environment, with string
/// variables looked up by name, succeeds or fails — and renders to what
/// it renders to — as a function of the template text and the variables
/// alone.
#[verifier::external_body]
fn render_raw(template: &str, vars: &Vec<(String, String)>) -> (r: Result<
    String,
    minijinja::Error,
>)
    ensures
        r is Ok <==> render_result_of(
            template@,
            vars@.map_values(|p: (String, String)| (p.0@, p.1@)),
        ) is Some,
        r is Ok ==> r->Ok_0@ == render_result_of(
            template@,
            vars@.map_values(|p: (String, String)| (p.0@, p.1@)),
        )->Some_0,
{
    let mut ctx = std::collections::HashMap::new();
    for (k, v) in vars.iter() {
        ctx.insert(k.as_str(), v.as_str());
    }
    minijinja::Environment::new().render_str(template, ctx)
}

/// Renders the system-prompt template with the event's live context.
/// Succeeds exactly when the engine accepts the template with these
/// variables; an input the engine rejects surfaces as a template
/// failure.
pub fn render(template: &str, vars: &PromptVars) -> (r: Result<String, RelayError>)
    ensures
        r is Ok <==> render_result_of(template@, pairs_of(*vars)) is Some,
        r is Ok ==> r->Ok_0@ == render_result_of(template@, pairs_of(*vars))->Some_0,
        r is Err ==> r->Err_0 == RelayError::Template,
{
    let pairs = vars.to_pairs();
    match render_raw(template, &pairs) {
        Ok(s) => Ok(s),
        Err(_) => Err(RelayError::Template),
    }
}

/// The built-in system-prompt template, used when a conversation has no
/// override set.
pub fn default_template() -> (r: String)
    ensures
        r@ == default_template_spec(),
{
    "You are {{ bot_nick }}, a friendly conversational partner in a group chat. {{ date }}. You are talking with {{ user_nick }}. Keep replies short, helpful and in character.".to_owned()
}

/// The text of the built-in system-prompt template.
pub open spec fn default_template_spec() -> Seq<char> {
    "You are {{ bot_nick }}, a friendly conversational partner in a group chat. {{ date }}. You are talking with {{ user_nick }}. Keep replies short, helpful and in character."@
}

} // verus!
