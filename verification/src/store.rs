//! The conversation store: a durable mapping from conversation identity
//! to an ordered, append-only message log and per-conversation settings.
//! Conversation identity is idempotent (one id per name, forever), and
//! history is read back exactly in append order. The host program layers
//! durability on top by replaying persisted rows through this store at
//! startup and writing each append through.

use vstd::prelude::*;

use crate::errors::RelayError;
use crate::msg::{Message, MessageView};

verus! {

/// An opaque conversation id, stable for the lifetime of the store.
#[derive(Debug, Clone, Copy, PartialEq, Eq, Hash, Structural)]
pub struct Conversation(pub u64);

/// Default model identifier applied when a conversation has none set.
pub const DEFAULT_MODEL: &'static str = "gpt-3.5-turbo";

/// Default token budget applied when a conversation has none set.
pub const DEFAULT_MAX_TOKENS: u16 = 256;

struct ConvRecord {
    id: u64,
    name: String,
    model: Option<String>,
    max_tokens: Option<u16>,
    prompt_override: Option<String>,
}

struct HistEntry {
    seq: u64,
    conv: u64,
    msg: Message,
}

/// The mathematical shape of one conversation row.
pub struct ConvModel {
    pub id: u64,
    pub name: Seq<char>,
    pub model: Option<Seq<char>>,
    pub max_tokens: Option<u16>,
    pub prompt_override: Option<Seq<char>>,
}

/// The mathematical shape of one history row.
pub struct EntryModel {
    pub seq: u64,
    pub conv: u64,
    pub msg: MessageView,
}

/// The mathematical shape of the whole store.
pub struct StoreModel {
    pub convs: Seq<ConvModel>,
    pub entries: Seq<EntryModel>,
}

impl View for ConvRecord {
    type V = ConvModel;

    closed spec fn view(&self) -> ConvModel {
        ConvModel {
            id: self.id,
            name: self.name@,
            model: match self.model {
                Some(ref s) => Some(s@),
                None => None,
            },
            max_tokens: self.max_tokens,
            prompt_override: match self.prompt_override {
                Some(ref s) => Some(s@),
                None => None,
            },
        }
    }
}

impl View for HistEntry {
    type V = EntryModel;

    closed spec fn view(&self) -> EntryModel {
        EntryModel { seq: self.seq, conv: self.conv, msg: self.msg@ }
    }
}

/// The conversation store.
pub struct Store {
    convs: Vec<ConvRecord>,
    entries: Vec<HistEntry>,
}

impl View for Store {
    type V = StoreModel;

    closed spec fn view(&self) -> StoreModel {
        StoreModel {
            convs: self.convs@.map_values(|r: ConvRecord| r@),
            entries: self.entries@.map_values(|e: HistEntry| e@),
        }
    }
}

/// Whether some conversation in the store bears this name.
pub open spec fn has_name(m: StoreModel, name: Seq<char>) -> bool {
    exists|i: int| 0 <= i < m.convs.len() && m.convs[i].name == name
}

/// Whether some conversation in the store bears this id.
pub open spec fn has_id(m: StoreModel, id: u64) -> bool {
    exists|i: int| 0 <= i < m.convs.len() && m.convs[i].id == id
}

/// The row index of the conversation with this name.
pub open spec fn index_of_name(m: StoreModel, name: Seq<char>) -> int {
    choose|i: int| 0 <= i < m.convs.len() && m.convs[i].name == name
}

/// The row index of the conversation with this id.
pub open spec fn index_of_id(m: StoreModel, id: u64) -> int {
    choose|i: int| 0 <= i < m.convs.len() && m.convs[i].id == id
}

/// The id of the conversation with this name.
pub open spec fn id_of(m: StoreModel, name: Seq<char>) -> u64 {
    m.convs[index_of_name(m, name)].id
}

/// The conversation row with this id.
pub open spec fn conv_of(m: StoreModel, id: u64) -> ConvModel {
    m.convs[index_of_id(m, id)]
}

/// Store sanity: ids and sequence numbers are assigned densely in row
/// order (hence unique and, for sequence numbers, strictly increasing),
/// names are unique, and every history row points at a conversation.
pub open spec fn model_wf(m: StoreModel) -> bool {
    &&& forall|i: int| 0 <= i < m.convs.len() ==> (#[trigger] m.convs[i].id) == i + 1
    &&& forall|i: int, j: int|
        0 <= i < j < m.convs.len() ==> (#[trigger] m.convs[i].name) != (#[trigger] m.convs[j].name)
    &&& forall|i: int| 0 <= i < m.entries.len() ==> (#[trigger] m.entries[i].seq) == i + 1
    &&& forall|i: int| 0 <= i < m.entries.len() ==> has_id(m, (#[trigger] m.entries[i].conv))
}

/// The messages of one conversation, in append order.
pub open spec fn history_of(m: StoreModel, id: u64) -> Seq<MessageView>
    decreases m.entries.len(),
{
    if m.entries.len() == 0 {
        Seq::empty()
    } else {
        let prefix = StoreModel { convs: m.convs, entries: m.entries.drop_last() };
        if m.entries.last().conv == id {
            history_of(prefix, id).push(m.entries.last().msg)
        } else {
            history_of(prefix, id)
        }
    }
}

/// The store after one message is appended to a conversation.
pub open spec fn append_model(m: StoreModel, id: u64, msg: MessageView) -> StoreModel {
    StoreModel {
        convs: m.convs,
        entries: m.entries.push(
            EntryModel { seq: (m.entries.len() + 1) as u64, conv: id, msg },
        ),
    }
}

/// The store after a name is looked up, inserting a fresh row when the
/// name is new.
pub open spec fn upsert_model(m: StoreModel, name: Seq<char>) -> StoreModel {
    if has_name(m, name) {
        m
    } else {
        StoreModel {
            convs: m.convs.push(
                ConvModel {
                    id: (m.convs.len() + 1) as u64,
                    name,
                    model: None,
                    max_tokens: None,
                    prompt_override: None,
                },
            ),
            entries: m.entries,
        }
    }
}

impl Store {
    /// An empty store.
    pub fn new() -> (s: Store)
        ensures
            s.wf(),
            s@.convs =~= Seq::<ConvModel>::empty(),
            s@.entries =~= Seq::<EntryModel>::empty(),
    {
        let s = Store { convs: Vec::new(), entries: Vec::new() };
        proof {
            assert(s@.convs =~= Seq::<ConvModel>::empty());
            assert(s@.entries =~= Seq::<EntryModel>::empty());
        }
        s
    }

    /// Store well-formedness; established by `new` and preserved by
    /// every method.
    pub open spec fn wf(&self) -> bool {
        model_wf(self@)
    }

    /// Looks a conversation up by name, inserting a row if the name is
    /// absent; the same name always yields the same id. Fails only when
    /// the id space is exhausted.
    pub fn find_or_create(&mut self, name: &str) -> (r: Result<Conversation, RelayError>)
        requires
            old(self).wf(),
        ensures
            final(self).wf(),
            match r {
                Ok(c) => {
                    &&& final(self)@ == upsert_model(old(self)@, name@)
                    &&& has_name(final(self)@, name@)
                    &&& c.0 == id_of(final(self)@, name@)
                    &&& has_name(old(self)@, name@) ==> final(self)@ == old(self)@
                    &&& !has_name(old(self)@, name@) ==> !has_id(old(self)@, c.0)
                },
                Err(e) => {
                    &&& e == RelayError::Persistence
                    &&& final(self)@ == old(self)@
                },
            },
            r is Err <==> !has_name(old(self)@, name@) && old(self)@.convs.len() >= u64::MAX,
    {
        let name_s: String = name.to_owned();
        let n = self.convs.len();
        let mut i: usize = 0;
        while i < n
            invariant
                self == old(self),
                self.wf(),
                n == self.convs@.len(),
                0 <= i <= n,
                name_s@ == name@,
                forall|j: int| 0 <= j < i ==> (#[trigger] self@.convs[j].name) != name@,
            decreases n - i,
        {
            if self.convs[i].name == name_s {
                proof {
                    assert(self@.convs[i as int].name == name@);
                    assert(has_name(self@, name@));
                    let k = index_of_name(self@, name@);
                    assert(0 <= k < self@.convs.len() && self@.convs[k].name == name@);
                    if k < i {
                        assert(self@.convs[k].name != self@.convs[i as int].name);
                    } else if k > i {
                        assert(self@.convs[i as int].name != self@.convs[k].name);
                    }
                    assert(k == i);
                }
                return Ok(Conversation(self.convs[i].id));
            }
            i = i + 1;
        }
        proof {
            assert(!has_name(self@, name@));
        }
        if n as u64 >= u64::MAX {
            return Err(RelayError::Persistence);
        }
        let id: u64 = n as u64 + 1;
        let rec = ConvRecord {
            id,
            name: name_s,
            model: None,
            max_tokens: None,
            prompt_override: None,
        };
        let ghost pre = self@;
        self.convs.push(rec);
        proof {
            assert(self@.convs =~= pre.convs.push(
                ConvModel {
                    id,
                    name: name@,
                    model: None,
                    max_tokens: None,
                    prompt_override: None,
                },
            ));
            assert(self@.entries =~= pre.entries);
            assert(self@ == upsert_model(pre, name@));
            assert(self@.convs[n as int].name == name@);
            assert(has_name(self@, name@));
            let k = index_of_name(self@, name@);
            assert(0 <= k < self@.convs.len() && self@.convs[k].name == name@);
            if k < n {
                assert(pre.convs[k].name == name@);
                assert(has_name(pre, name@));
            }
            assert(k == n);
            assert(forall|i2: int|
                0 <= i2 < self@.entries.len() ==> has_id(
                    self@,
                    (#[trigger] self@.entries[i2].conv),
                )) by {
                assert forall|i2: int| 0 <= i2 < self@.entries.len() implies has_id(
                    self@,
                    (#[trigger] self@.entries[i2].conv),
                ) by {
                    assert(has_id(pre, pre.entries[i2].conv));
                    let k = index_of_id(pre, pre.entries[i2].conv);
                    assert(self@.convs[k].id == pre.entries[i2].conv);
                }
            }
        }
        Ok(Conversation(id))
    }

    /// Appends one message to a conversation with the next sequence id.
    /// Fails only when the sequence space is exhausted.
    pub fn append(&mut self, c: Conversation, msg: Message) -> (r: Result<(), RelayError>)
        requires
            old(self).wf(),
            has_id(old(self)@, c.0),
        ensures
            final(self).wf(),
            match r {
                Ok(()) => {
                    &&& final(self)@ == append_model(old(self)@, c.0, msg@)
                    &&& history_of(final(self)@, c.0) == history_of(old(self)@, c.0).push(msg@)
                    &&& forall|other: u64|
                        other != c.0 ==> history_of(final(self)@, other) == history_of(
                            old(self)@,
                            other,
                        )
                },
                Err(e) => {
                    &&& e == RelayError::Persistence
                    &&& final(self)@ == old(self)@
                },
            },
            r is Err <==> old(self)@.entries.len() >= u64::MAX,
    {
        let n = self.entries.len();
        if n as u64 >= u64::MAX {
            return Err(RelayError::Persistence);
        }
        let seq_id: u64 = n as u64 + 1;
        let ghost pre = self@;
        let ghost mv = msg@;
        self.entries.push(HistEntry { seq: seq_id, conv: c.0, msg });
        proof {
            assert(self@.entries =~= pre.entries.push(
                EntryModel { seq: seq_id, conv: c.0, msg: mv },
            ));
            assert(self@.convs =~= pre.convs);
            assert(self@ == append_model(pre, c.0, mv));
            lemma_history_append(pre, c.0, mv);
        }
        Ok(())
    }

    /// All messages of a conversation, in ascending sequence order; an
    /// empty vector, not an error, when there are none.
    pub fn history(&self, c: Conversation) -> (h: Vec<Message>)
        requires
            self.wf(),
        ensures
            h@.map_values(|m: Message| m@) == history_of(self@, c.0),
    {
        let mut h: Vec<Message> = Vec::new();
        let n = self.entries.len();
        let mut i: usize = 0;
        while i < n
            invariant
                n == self.entries@.len(),
                0 <= i <= n,
                h@.map_values(|m: Message| m@) == history_of(
                    StoreModel { convs: self@.convs, entries: self@.entries.take(i as int) },
                    c.0,
                ),
            decreases n - i,
        {
            let ghost prefix = StoreModel {
                convs: self@.convs,
                entries: self@.entries.take(i as int),
            };
            let ghost next = StoreModel {
                convs: self@.convs,
                entries: self@.entries.take(i + 1 as int),
            };
            proof {
                assert(next.entries.drop_last() =~= prefix.entries);
                assert(next.entries.last() == self@.entries[i as int]);
            }
            if self.entries[i].conv == c.0 {
                let m = self.entries[i].msg.clone();
                h.push(m);
                proof {
                    assert(h@.map_values(|m2: Message| m2@) =~= history_of(next, c.0));
                }
            } else {
                proof {
                    assert(history_of(next, c.0) == history_of(prefix, c.0));
                }
            }
            i = i + 1;
        }
        proof {
            assert(self@.entries.take(n as int) =~= self@.entries);
        }
        h
    }

    /// The prompt override of a conversation, when one is set.
    pub fn get_prompt(&self, c: Conversation) -> (r: Option<String>)
        requires
            self.wf(),
            has_id(self@, c.0),
        ensures
            match r {
                Some(s) => conv_of(self@, c.0).prompt_override == Some(s@),
                None => conv_of(self@, c.0).prompt_override is None,
            },
    {
        let i = self.index_of(c);
        match &self.convs[i].prompt_override {
            Some(s) => Some(s.clone()),
            None => None,
        }
    }

    /// Upserts the prompt override of a conversation.
    pub fn set_prompt(&mut self, c: Conversation, text: &str)
        requires
            old(self).wf(),
            has_id(old(self)@, c.0),
        ensures
            final(self).wf(),
            final(self)@.entries == old(self)@.entries,
            final(self)@.convs.len() == old(self)@.convs.len(),
            conv_of(final(self)@, c.0) == (ConvModel {
                prompt_override: Some(text@),
                ..conv_of(old(self)@, c.0)
            }),
            forall|j: int|
                0 <= j < old(self)@.convs.len() && j != index_of_id(old(self)@, c.0)
                    ==> final(self)@.convs[j] == old(self)@.convs[j],
    {
        let i = self.index_of(c);
        let ghost pre = self@;
        let new_text = text.to_owned();
        let rec = &mut self.convs[i];
        rec.prompt_override = Some(new_text);
        proof {
            assert(self@.entries =~= pre.entries);
            assert(self@.convs.len() == pre.convs.len());
            assert(forall|j: int|
                0 <= j < pre.convs.len() && j != i ==> (#[trigger] self@.convs[j])
                    == pre.convs[j]);
            assert(self@.convs[i as int].id == pre.convs[i as int].id);
            assert(self@.convs[i as int].name == pre.convs[i as int].name);
            assert(self@.convs[i as int].model == pre.convs[i as int].model);
            assert(self@.convs[i as int].max_tokens == pre.convs[i as int].max_tokens);
            assert(self@.convs[i as int].prompt_override == Some(text@));
            assert(forall|j: int|
                0 <= j < pre.convs.len() ==> (#[trigger] self@.convs[j].id) == pre.convs[j].id);
            assert(forall|j: int|
                0 <= j < pre.convs.len() ==> (#[trigger] self@.convs[j].name)
                    == pre.convs[j].name);
            assert forall|i2: int| 0 <= i2 < self@.entries.len() implies has_id(
                self@,
                (#[trigger] self@.entries[i2].conv),
            ) by {
                assert(has_id(pre, pre.entries[i2].conv));
                let k = index_of_id(pre, pre.entries[i2].conv);
                assert(self@.convs[k].id == pre.entries[i2].conv);
            }
            lemma_index_of_id_stable(pre, self@, c.0, i as int);
            assert(conv_of(self@, c.0) == self@.convs[i as int]);
            assert(conv_of(self@, c.0) == (ConvModel {
                prompt_override: Some(text@),
                ..conv_of(pre, c.0)
            }));
        }
    }

    /// Upserts the model identifier of a conversation.
    pub fn set_model(&mut self, c: Conversation, model: &str)
        requires
            old(self).wf(),
            has_id(old(self)@, c.0),
        ensures
            final(self).wf(),
            final(self)@.entries == old(self)@.entries,
            final(self)@.convs.len() == old(self)@.convs.len(),
            conv_of(final(self)@, c.0) == (ConvModel {
                model: Some(model@),
                ..conv_of(old(self)@, c.0)
            }),
            forall|j: int|
                0 <= j < old(self)@.convs.len() && j != index_of_id(old(self)@, c.0)
                    ==> final(self)@.convs[j] == old(self)@.convs[j],
    {
        let i = self.index_of(c);
        let ghost pre = self@;
        let new_model = model.to_owned();
        let rec = &mut self.convs[i];
        rec.model = Some(new_model);
        proof {
            assert(self@.entries =~= pre.entries);
            assert(self@.convs.len() == pre.convs.len());
            assert(forall|j: int|
                0 <= j < pre.convs.len() && j != i ==> (#[trigger] self@.convs[j])
                    == pre.convs[j]);
            assert(self@.convs[i as int].id == pre.convs[i as int].id);
            assert(self@.convs[i as int].name == pre.convs[i as int].name);
            assert(self@.convs[i as int].model == Some(model@));
            assert(self@.convs[i as int].max_tokens == pre.convs[i as int].max_tokens);
            assert(self@.convs[i as int].prompt_override == pre.convs[i as int].prompt_override);
            assert(forall|j: int|
                0 <= j < pre.convs.len() ==> (#[trigger] self@.convs[j].id) == pre.convs[j].id);
            assert(forall|j: int|
                0 <= j < pre.convs.len() ==> (#[trigger] self@.convs[j].name)
                    == pre.convs[j].name);
            assert forall|i2: int| 0 <= i2 < self@.entries.len() implies has_id(
                self@,
                (#[trigger] self@.entries[i2].conv),
            ) by {
                assert(has_id(pre, pre.entries[i2].conv));
                let k = index_of_id(pre, pre.entries[i2].conv);
                assert(self@.convs[k].id == pre.entries[i2].conv);
            }
            lemma_index_of_id_stable(pre, self@, c.0, i as int);
            assert(conv_of(self@, c.0) == self@.convs[i as int]);
            assert(conv_of(self@, c.0) == (ConvModel {
                model: Some(model@),
                ..conv_of(pre, c.0)
            }));
        }
    }

    /// Upserts the token budget of a conversation.
    pub fn set_max_tokens(&mut self, c: Conversation, max_tokens: u16)
        requires
            old(self).wf(),
            has_id(old(self)@, c.0),
        ensures
            final(self).wf(),
            final(self)@.entries == old(self)@.entries,
            final(self)@.convs.len() == old(self)@.convs.len(),
            conv_of(final(self)@, c.0) == (ConvModel {
                max_tokens: Some(max_tokens),
                ..conv_of(old(self)@, c.0)
            }),
            forall|j: int|
                0 <= j < old(self)@.convs.len() && j != index_of_id(old(self)@, c.0)
                    ==> final(self)@.convs[j] == old(self)@.convs[j],
    {
        let i = self.index_of(c);
        let ghost pre = self@;
        let rec = &mut self.convs[i];
        rec.max_tokens = Some(max_tokens);
        proof {
            assert(self@.entries =~= pre.entries);
            assert(self@.convs.len() == pre.convs.len());
            assert(forall|j: int|
                0 <= j < pre.convs.len() && j != i ==> (#[trigger] self@.convs[j])
                    == pre.convs[j]);
            assert(self@.convs[i as int].id == pre.convs[i as int].id);
            assert(self@.convs[i as int].name == pre.convs[i as int].name);
            assert(self@.convs[i as int].model == pre.convs[i as int].model);
            assert(self@.convs[i as int].max_tokens == Some(max_tokens));
            assert(self@.convs[i as int].prompt_override == pre.convs[i as int].prompt_override);
            assert(forall|j: int|
                0 <= j < pre.convs.len() ==> (#[trigger] self@.convs[j].id) == pre.convs[j].id);
            assert(forall|j: int|
                0 <= j < pre.convs.len() ==> (#[trigger] self@.convs[j].name)
                    == pre.convs[j].name);
            assert forall|i2: int| 0 <= i2 < self@.entries.len() implies has_id(
                self@,
                (#[trigger] self@.entries[i2].conv),
            ) by {
                assert(has_id(pre, pre.entries[i2].conv));
                let k = index_of_id(pre, pre.entries[i2].conv);
                assert(self@.convs[k].id == pre.entries[i2].conv);
            }
            lemma_index_of_id_stable(pre, self@, c.0, i as int);
            assert(conv_of(self@, c.0) == self@.convs[i as int]);
            assert(conv_of(self@, c.0) == (ConvModel {
                max_tokens: Some(max_tokens),
                ..conv_of(pre, c.0)
            }));
        }
    }

    /// The model identifier of a conversation, or the default when
    /// unset.
    pub fn model(&self, c: Conversation) -> (r: String)
        requires
            self.wf(),
            has_id(self@, c.0),
        ensures
            r@ == model_setting(self@, c.0),
    {
        let i = self.index_of(c);
        match &self.convs[i].model {
            Some(s) => s.clone(),
            None => DEFAULT_MODEL.to_owned(),
        }
    }

    /// The token budget of a conversation, or the default when unset.
    pub fn max_tokens(&self, c: Conversation) -> (r: u16)
        requires
            self.wf(),
            has_id(self@, c.0),
        ensures
            r == max_tokens_setting(self@, c.0),
    {
        let i = self.index_of(c);
        match self.convs[i].max_tokens {
            Some(t) => t,
            None => DEFAULT_MAX_TOKENS,
        }
    }

    /// The row index holding a conversation id.
    fn index_of(&self, c: Conversation) -> (i: usize)
        requires
            self.wf(),
            has_id(self@, c.0),
        ensures
            i == index_of_id(self@, c.0),
            0 <= i < self.convs@.len(),
            self@.convs[i as int].id == c.0,
    {
        let n = self.convs.len();
        proof {
            assert(has_id(self@, c.0));
            let k = index_of_id(self@, c.0);
            assert(0 <= k < self@.convs.len() && self@.convs[k].id == c.0);
            assert(self@.convs[k].id == k + 1);
            assert(k < n);
        }
        let i = (c.0 - 1) as usize;
        proof {
            let k = index_of_id(self@, c.0);
            assert(k == c.0 - 1);
            assert(i == k);
        }
        i
    }
}

/// The effective model setting of a conversation.
pub open spec fn model_setting(m: StoreModel, id: u64) -> Seq<char> {
    match conv_of(m, id).model {
        Some(s) => s,
        None => DEFAULT_MODEL@,
    }
}

/// The effective token budget of a conversation.
pub open spec fn max_tokens_setting(m: StoreModel, id: u64) -> u16 {
    match conv_of(m, id).max_tokens {
        Some(t) => t,
        None => DEFAULT_MAX_TOKENS,
    }
}

/// Appending touches exactly the appended conversation's history, at its
/// end.
pub proof fn lemma_history_append(m: StoreModel, id: u64, msg: MessageView)
    ensures
        history_of(append_model(m, id, msg), id) == history_of(m, id).push(msg),
        forall|other: u64|
            other != id ==> history_of(append_model(m, id, msg), other) == history_of(m, other),
{
    let m2 = append_model(m, id, msg);
    assert(m2.entries.drop_last() =~= m.entries);
    assert forall|other: u64| other != id implies history_of(m2, other) == history_of(
        m,
        other,
    ) by {
        assert(m2.entries.last().conv != other);
    }
}

/// Looking a name up is idempotent: a second lookup of the same name
/// changes nothing and yields the same id as the first.
pub proof fn lemma_find_or_create_idempotent(m: StoreModel, name: Seq<char>)
    requires
        model_wf(m),
    ensures
        has_name(upsert_model(m, name), name),
        upsert_model(upsert_model(m, name), name) == upsert_model(m, name),
        id_of(upsert_model(upsert_model(m, name), name), name) == id_of(
            upsert_model(m, name),
            name,
        ),
{
    let m1 = upsert_model(m, name);
    if has_name(m, name) {
    } else {
        let n = m.convs.len() as int;
        assert(m1.convs[n].name == name);
        assert(has_name(m1, name));
    }
}

/// Two distinct names never share an id.
pub proof fn lemma_distinct_names_distinct_ids(m: StoreModel, n1: Seq<char>, n2: Seq<char>)
    requires
        model_wf(m),
        has_name(m, n1),
        has_name(m, n2),
        n1 != n2,
    ensures
        id_of(m, n1) != id_of(m, n2),
{
    let i1 = index_of_name(m, n1);
    let i2 = index_of_name(m, n2);
    assert(0 <= i1 < m.convs.len() && m.convs[i1].name == n1);
    assert(0 <= i2 < m.convs.len() && m.convs[i2].name == n2);
    assert(i1 != i2);
    assert(m.convs[i1].id == i1 + 1);
    assert(m.convs[i2].id == i2 + 1);
}

/// Appending three messages to a conversation extends its history by
/// exactly those messages, in that order; no reordering can occur.
pub proof fn lemma_history_append_order(
    m: StoreModel,
    c: u64,
    x1: MessageView,
    x2: MessageView,
    x3: MessageView,
)
    ensures
        ({
            let m3 = append_model(append_model(append_model(m, c, x1), c, x2), c, x3);
            history_of(m3, c) == history_of(m, c) + seq![x1, x2, x3]
        }),
{
    let m1 = append_model(m, c, x1);
    let m2 = append_model(m1, c, x2);
    let m3 = append_model(m2, c, x3);
    lemma_history_append(m, c, x1);
    lemma_history_append(m1, c, x2);
    lemma_history_append(m2, c, x3);
    assert(history_of(m, c).push(x1).push(x2).push(x3) =~= history_of(m, c) + seq![x1, x2, x3]);
}

/// A row keeps its index when only another row's settings change.
proof fn lemma_index_of_id_stable(pre: StoreModel, post: StoreModel, id: u64, i: int)
    requires
        model_wf(pre),
        pre.convs.len() == post.convs.len(),
        0 <= i < pre.convs.len(),
        index_of_id(pre, id) == i,
        pre.convs[i].id == id,
        post.convs[i].id == id,
        forall|j: int| 0 <= j < pre.convs.len() ==> (#[trigger] post.convs[j].id) == pre.convs[j].id,
    ensures
        has_id(post, id),
        index_of_id(post, id) == i,
        conv_of(post, id) == post.convs[i],
{
    assert(has_id(post, id));
    let k = index_of_id(post, id);
    assert(post.convs[k].id == id);
    assert(pre.convs[k].id == id);
    assert(pre.convs[k].id == k + 1);
    assert(pre.convs[i].id == i + 1);
}

} // verus!
