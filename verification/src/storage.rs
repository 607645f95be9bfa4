//! Durable session state and where a session is stored.
use vstd::prelude::*;

use crate::context::{duplicate_items, item_views, Item, ItemView, Request, RequestView};
use crate::error::Error;
use crate::message::{Message, MessageView, ToolCallView, call_views};
use crate::text::{
    chars_of, concat, join_path, path_join, string_from_range, text_less, text_lt, texts,
};
use crate::skills::{lemma_text_lt_total, lemma_text_lt_trans};

verus! {

/// Everything a conversation needs to resume: the human-readable transcript, the
/// canonical context, the count of compactions, a request that failed and waits for
/// a retry, the last input token count and the last error.
#[derive(Debug, Clone, PartialEq, Default)]
pub struct SessionState {
    pub transcript: Vec<Message>,
    pub context: Vec<Item>,
    pub compaction_count: u64,
    pub pending_request: Option<Request>,
    pub last_input_tokens: u32,
    pub last_error: Option<String>,
}

/// A session as a value.
pub struct SessionView {
    pub transcript: Seq<MessageView>,
    pub context: Seq<ItemView>,
    pub compaction_count: u64,
    pub pending: Option<RequestView>,
    pub last_input_tokens: u32,
    pub last_error: Option<Seq<char>>,
}

/// The messages as values.
pub open spec fn message_views(ms: Seq<Message>) -> Seq<MessageView> {
    ms.map_values(|m: Message| m@)
}

impl View for SessionState {
    type V = SessionView;

    open spec fn view(&self) -> SessionView {
        SessionView {
            transcript: message_views(self.transcript@),
            context: item_views(self.context@),
            compaction_count: self.compaction_count,
            pending: match self.pending_request {
                Some(r) => Some(r@),
                None => None,
            },
            last_input_tokens: self.last_input_tokens,
            last_error: match self.last_error {
                Some(e) => Some(e@),
                None => None,
            },
        }
    }
}

/// The context items a stored transcript of the older format stands for.
pub open spec fn legacy_items(m: MessageView) -> Seq<ItemView> {
    match m {
        MessageView::System { .. } => seq![],
        MessageView::User { content } => seq![ItemView::User { content }],
        MessageView::Assistant { text, tool_calls } => (match text {
            Some(t) => seq![ItemView::Assistant { content: t }],
            None => seq![],
        }) + call_items(tool_calls),
        MessageView::Tool { tool_call_id, content } => seq![
            ItemView::FunctionCallOutput { call_id: tool_call_id, output: content },
        ],
    }
}

/// The `function_call` item of a call.
pub open spec fn call_item(c: ToolCallView) -> ItemView {
    ItemView::FunctionCall { call_id: c.id, name: c.name, arguments: c.arguments }
}

/// The `function_call` items of calls.
pub open spec fn call_items(calls: Seq<ToolCallView>) -> Seq<ItemView> {
    calls.map_values(|c: ToolCallView| call_item(c))
}

/// The context rebuilt from a transcript of the older format.
pub open spec fn spec_legacy_context(ms: Seq<MessageView>) -> Seq<ItemView>
    decreases ms.len(),
{
    if ms.len() == 0 {
        seq![]
    } else {
        spec_legacy_context(ms.drop_last()) + legacy_items(ms.last())
    }
}

/// The context items for a transcript stored in the older format (a bare message list).
pub fn legacy_context(transcript: &Vec<Message>) -> (context: Vec<Item>)
    ensures
        item_views(context@) == spec_legacy_context(message_views(transcript@)),
{
    let mut context: Vec<Item> = Vec::new();
    let mut i: usize = 0;
    while i < transcript.len()
        invariant
            i <= transcript.len(),
            item_views(context@) == spec_legacy_context(message_views(transcript@.take(i as int))),
        decreases transcript.len() - i,
    {
        let ghost before = item_views(context@);
        proof {
            assert(message_views(transcript@.take(i + 1)).drop_last() =~= message_views(
                transcript@.take(i as int),
            ));
            assert(message_views(transcript@.take(i + 1)).last() == transcript@[i as int]@);
        }
        match &transcript[i] {
            Message::System { .. } => {
                proof {
                    assert(before + legacy_items(transcript@[i as int]@) =~= before);
                }
            },
            Message::User { content } => {
                context.push(Item::User { content: content.clone() });
                proof {
                    assert(item_views(context@) =~= before + legacy_items(transcript@[i as int]@));
                }
            },
            Message::Assistant { text, tool_calls } => {
                let ghost start = item_views(context@);
                match text {
                    Some(t) => context.push(Item::Assistant { content: t.clone() }),
                    None => {},
                }
                let ghost mid = item_views(context@);
                let mut k: usize = 0;
                while k < tool_calls.len()
                    invariant
                        k <= tool_calls.len(),
                        item_views(context@) == mid + call_items(call_views(tool_calls@).take(k as int)),
                    decreases tool_calls.len() - k,
                {
                    let call = &tool_calls[k];
                    let ghost pre = item_views(context@);
                    context.push(
                        Item::FunctionCall {
                            call_id: call.id.clone(),
                            name: call.name.clone(),
                            arguments: call.arguments.clone(),
                        },
                    );
                    proof {
                        assert(call_views(tool_calls@).take(k + 1) =~= call_views(tool_calls@).take(
                            k as int,
                        ).push(tool_calls@[k as int]@));
                        assert(call_items(call_views(tool_calls@).take(k + 1)) =~= call_items(
                            call_views(tool_calls@).take(k as int),
                        ).push(call_item(tool_calls@[k as int]@)));
                        let a = call_items(call_views(tool_calls@).take(k as int));
                        let x = call_item(tool_calls@[k as int]@);
                        assert(mid + a.push(x) =~= (mid + a).push(x));
                        assert(item_views(context@) =~= mid + call_items(call_views(tool_calls@).take(k + 1)));
                    }
                    k += 1;
                }
                proof {
                    assert(call_views(tool_calls@).take(tool_calls.len() as int) =~= call_views(
                        tool_calls@,
                    ));
                    assert(item_views(context@) =~= before + legacy_items(transcript@[i as int]@));
                }
            },
            Message::Tool { tool_call_id, content } => {
                context.push(
                    Item::FunctionCallOutput { call_id: tool_call_id.clone(), output: content.clone() },
                );
                proof {
                    assert(item_views(context@) =~= before + legacy_items(transcript@[i as int]@));
                }
            },
        }
        i += 1;
    }
    proof {
        assert(transcript@.take(transcript.len() as int) =~= transcript@);
    }
    context
}

impl SessionState {
    /// A new, empty session.
    pub fn new() -> (s: SessionState)
        ensures
            s@.transcript.len() == 0,
            s@.context.len() == 0,
            s@.compaction_count == 0,
            s@.pending is None,
            s@.last_input_tokens == 0,
            s@.last_error is None,
    {
        SessionState {
            transcript: Vec::new(),
            context: Vec::new(),
            compaction_count: 0,
            pending_request: None,
            last_input_tokens: 0,
            last_error: None,
        }
    }

    /// The session stored in the older format: only a transcript, whose context is
    /// rebuilt from it; everything else starts empty.
    pub fn from_legacy(transcript: Vec<Message>) -> (s: SessionState)
        ensures
            s.transcript@ == transcript@,
            s@.context == spec_legacy_context(message_views(transcript@)),
            s@.compaction_count == 0,
            s@.pending is None,
            s@.last_input_tokens == 0,
            s@.last_error is None,
    {
        let context = legacy_context(&transcript);
        SessionState {
            transcript,
            context,
            compaction_count: 0,
            pending_request: None,
            last_input_tokens: 0,
            last_error: None,
        }
    }
}

/// A character allowed in a conversation id.
pub open spec fn is_id_char(c: char) -> bool {
    ||| ('a' <= c && c <= 'z')
    ||| ('A' <= c && c <= 'Z')
    ||| ('0' <= c && c <= '9')
    ||| c == '-'
    ||| c == '_'
    ||| c == '.'
}

/// A conversation id is a non-empty run of ASCII letters, digits, `-`, `_` and `.`;
/// anything else (such as a path separator) could reach outside the session directory.
pub open spec fn valid_id(id: Seq<char>) -> bool {
    id.len() > 0 && forall|i: int| 0 <= i < id.len() ==> is_id_char(#[trigger] id[i])
}

/// The message for a refused conversation id.
pub open spec fn invalid_id_message(id: Seq<char>) -> Seq<char> {
    "invalid conversation id: "@ + id
}

/// Sessions stored as one JSON file per conversation in a directory.
#[derive(Debug, Clone, PartialEq, Eq)]
pub struct FileStorage {
    pub dir: String,
}

impl FileStorage {
    /// Storage in the directory `dir`.
    pub fn new(dir: &str) -> (s: FileStorage)
        ensures
            s.dir@ == dir@,
    {
        FileStorage { dir: dir.to_owned() }
    }

    /// The file of conversation `id`: `<dir>/<id>.json`, for a valid id.
    pub fn path(&self, id: &str) -> (r: Result<String, Error>)
        ensures
            valid_id(id@) ==> (r matches Ok(p) && p@ == path_join(self.dir@, id@ + ".json"@)),
            !valid_id(id@) ==> (r matches Err(Error::Storage(m)) && m@ == invalid_id_message(id@)),
    {
        let chars = chars_of(id);
        let mut ok = chars.len() > 0;
        let mut i: usize = 0;
        while i < chars.len()
            invariant
                i <= chars.len(),
                chars@ == id@,
                ok == (chars@.len() > 0 && forall|j: int| 0 <= j < i ==> is_id_char(#[trigger] chars@[j])),
            decreases chars.len() - i,
        {
            let c = chars[i];
            let good = ('a' <= c && c <= 'z') || ('A' <= c && c <= 'Z') || ('0' <= c && c <= '9')
                || c == '-' || c == '_' || c == '.';
            if !good {
                ok = false;
            }
            i += 1;
        }
        if !ok {
            return Err(Error::Storage(concat("invalid conversation id: ", id)));
        }
        let file = concat(id, ".json");
        Ok(join_path(self.dir.as_str(), file.as_str()))
    }

    /// The file written first when saving conversation `id`, then renamed over it.
    pub fn temporary_path(&self, id: &str) -> (r: Result<String, Error>)
        ensures
            valid_id(id@) ==> (r matches Ok(p) && p@ == path_join(self.dir@, id@ + ".json"@) + ".tmp"@),
            !valid_id(id@) ==> (r matches Err(Error::Storage(m)) && m@ == invalid_id_message(id@)),
    {
        match self.path(id) {
            Ok(p) => Ok(concat(p.as_str(), ".tmp")),
            Err(e) => Err(e),
        }
    }
}

/// A session with nothing in it.
pub open spec fn empty_session() -> SessionView {
    SessionView {
        transcript: seq![],
        context: seq![],
        compaction_count: 0,
        pending: None,
        last_input_tokens: 0,
        last_error: None,
    }
}

impl SessionState {
    /// A copy of the session.
    pub fn duplicate(&self) -> (c: SessionState)
        ensures
            c@ == self@,
    {
        let mut transcript: Vec<Message> = Vec::new();
        let mut i: usize = 0;
        while i < self.transcript.len()
            invariant
                i <= self.transcript.len(),
                message_views(transcript@) == message_views(self.transcript@.take(i as int)),
            decreases self.transcript.len() - i,
        {
            let ghost before = transcript@;
            let m = self.transcript[i].duplicate();
            transcript.push(m);
            proof {
                assert(message_views(transcript@) =~= message_views(before).push(m@));
                assert(message_views(self.transcript@.take(i + 1)) =~= message_views(
                    self.transcript@.take(i as int),
                ).push(self.transcript@[i as int]@));
            }
            i += 1;
        }
        proof {
            assert(self.transcript@.take(self.transcript.len() as int) =~= self.transcript@);
        }
        SessionState {
            transcript,
            context: duplicate_items(&self.context),
            compaction_count: self.compaction_count,
            pending_request: match &self.pending_request {
                Some(r) => Some(r.duplicate()),
                None => None,
            },
            last_input_tokens: self.last_input_tokens,
            last_error: match &self.last_error {
                Some(e) => Some(e.clone()),
                None => None,
            },
        }
    }
}

/// The sessions kept under `ids`, each with the state at the same place of `states`;
/// a later id replaces an earlier equal one.
pub open spec fn stored(ids: Seq<String>, states: Seq<SessionState>) -> Map<Seq<char>, SessionView>
    decreases ids.len(),
{
    if ids.len() == 0 || states.len() == 0 {
        Map::empty()
    } else {
        stored(ids.drop_last(), states.drop_last()).insert(ids.last()@, states.last()@)
    }
}

/// No two ids are equal.
pub open spec fn distinct_ids(ids: Seq<String>) -> bool {
    forall|i: int, j: int| 0 <= i < j < ids.len() ==> ids[i]@ != ids[j]@
}

/// An id that occurs nowhere in `ids` has no session.
pub proof fn lemma_stored_absent(ids: Seq<String>, states: Seq<SessionState>, id: Seq<char>)
    requires
        forall|i: int| 0 <= i < ids.len() ==> ids[i]@ != id,
    ensures
        !stored(ids, states).contains_key(id),
    decreases ids.len(),
{
    if ids.len() > 0 && states.len() > 0 {
        lemma_stored_absent(ids.drop_last(), states.drop_last(), id);
    }
}

/// With distinct ids, the session under `ids[i]` is `states[i]`.
pub proof fn lemma_stored_at(ids: Seq<String>, states: Seq<SessionState>, i: int)
    requires
        ids.len() == states.len(),
        distinct_ids(ids),
        0 <= i < ids.len(),
    ensures
        stored(ids, states).contains_key(ids[i]@),
        stored(ids, states)[ids[i]@] == states[i]@,
    decreases ids.len(),
{
    if i < ids.len() - 1 {
        lemma_stored_at(ids.drop_last(), states.drop_last(), i);
    }
}

/// With distinct ids, replacing `states[i]` replaces the session under `ids[i]`.
pub proof fn lemma_stored_update(ids: Seq<String>, states: Seq<SessionState>, i: int, s: SessionState)
    requires
        ids.len() == states.len(),
        distinct_ids(ids),
        0 <= i < ids.len(),
    ensures
        stored(ids, states.update(i, s)) == stored(ids, states).insert(ids[i]@, s@),
    decreases ids.len(),
{
    let n = ids.len() - 1;
    let updated = states.update(i, s);
    if i == n {
        assert(updated.drop_last() =~= states.drop_last());
        assert(stored(ids, updated) =~= stored(ids, states).insert(ids[i]@, s@));
    } else {
        assert(updated.drop_last() =~= states.drop_last().update(i, s));
        lemma_stored_update(ids.drop_last(), states.drop_last(), i, s);
        assert(ids.drop_last()[i] == ids[i]);
        assert(ids[i]@ != ids[n]@);
        assert(stored(ids, updated) =~= stored(ids, states).insert(ids[i]@, s@));
    }
}

/// Sessions kept in memory, for tests and embedding.
pub struct MemoryStorage {
    ids: Vec<String>,
    states: Vec<SessionState>,
}

impl View for MemoryStorage {
    type V = Map<Seq<char>, SessionView>;

    closed spec fn view(&self) -> Map<Seq<char>, SessionView> {
        stored(self.ids@, self.states@)
    }
}

impl MemoryStorage {
    #[verifier::type_invariant]
    spec fn well_formed(&self) -> bool {
        &&& self.ids.len() == self.states.len()
        &&& distinct_ids(self.ids@)
    }

    /// Storage without sessions.
    pub fn new() -> (m: MemoryStorage)
        ensures
            m@ == Map::<Seq<char>, SessionView>::empty(),
    {
        MemoryStorage { ids: Vec::new(), states: Vec::new() }
    }

    /// Where `id` is kept, if anywhere.
    fn position(&self, id: &String) -> (r: Option<usize>)
        ensures
            match r {
                Some(i) => i < self.ids@.len() && self.ids@[i as int]@ == id@,
                None => forall|i: int| 0 <= i < self.ids@.len() ==> self.ids@[i]@ != id@,
            },
    {
        let mut i: usize = 0;
        while i < self.ids.len()
            invariant
                i <= self.ids.len(),
                forall|k: int| 0 <= k < i ==> self.ids@[k]@ != id@,
            decreases self.ids.len() - i,
        {
            if self.ids[i] == *id {
                return Some(i);
            }
            i += 1;
        }
        None
    }

    /// Keeps a copy of `state` as the session `id`, replacing an earlier one.
    pub fn save(&mut self, id: &str, state: &SessionState)
        ensures
            final(self)@ == old(self)@.insert(id@, state@),
    {
        let key = id.to_owned();
        let copy = state.duplicate();
        let found = self.position(&key);
        let mut taken = MemoryStorage::new();
        std::mem::swap(&mut taken, self);
        proof {
            use_type_invariant(&taken);
        }
        let MemoryStorage { mut ids, mut states } = taken;
        let ghost ids0 = ids@;
        let ghost states0 = states@;
        match found {
            Some(i) => {
                states.set(i, copy);
                proof {
                    lemma_stored_update(ids0, states0, i as int, copy);
                }
            },
            None => {
                ids.push(key);
                states.push(copy);
                proof {
                    assert(ids@.drop_last() =~= ids0);
                    assert(states@.drop_last() =~= states0);
                }
            },
        }
        *self = MemoryStorage { ids, states };
    }

    /// A copy of the session `id`, or an empty session when none is kept.
    pub fn load(&self, id: &str) -> (s: SessionState)
        ensures
            self@.contains_key(id@) ==> s@ == self@[id@],
            !self@.contains_key(id@) ==> s@ == empty_session(),
    {
        proof {
            use_type_invariant(self);
        }
        let key = id.to_owned();
        match self.position(&key) {
            Some(i) => {
                proof {
                    lemma_stored_at(self.ids@, self.states@, i as int);
                }
                self.states[i].duplicate()
            },
            None => {
                proof {
                    lemma_stored_absent(self.ids@, self.states@, id@);
                }
                let s = SessionState::new();
                proof {
                    assert(s@.transcript =~= Seq::<MessageView>::empty());
                    assert(s@.context =~= Seq::<ItemView>::empty());
                }
                s
            },
        }
    }
}

/// Reading a session gives back what was last saved under its id, and saving one
/// session leaves every other as it was.
pub proof fn lemma_load_after_save(
    before: Map<Seq<char>, SessionView>,
    id: Seq<char>,
    state: SessionView,
    other: Seq<char>,
)
    ensures
        before.insert(id, state).contains_key(id),
        before.insert(id, state)[id] == state,
        other != id ==> before.insert(id, state).contains_key(other) == before.contains_key(other),
        other != id && before.contains_key(other) ==> before.insert(id, state)[other]
            == before[other],
{
}

/// How reading a stored session went.
pub enum StoredSession {
    /// The file holds a whole session.
    Current(SessionState),
    /// The file holds only a transcript, in the older format.
    Legacy(Vec<Message>),
}

/// What reading a session file gave.
pub enum LoadOutcome {
    /// The file was read and understood.
    Found(StoredSession),
    /// There is no such file.
    Missing,
    /// The file could not be read, for the given reason.
    Unreadable(String),
    /// The file's content is not a session, for the given reason.
    Invalid(String),
}

/// The message for a storage failure at `path`.
pub open spec fn storage_message(path: Seq<char>, error: Seq<char>) -> Seq<char> {
    path + ": "@ + error
}

impl FileStorage {
    /// The error for an input or output failure at `path`.
    pub fn storage_error(path: &str, error: &str) -> (e: Error)
        ensures
            e matches Error::Storage(m) && m@ == storage_message(path@, error@),
    {
        let mut m = concat(path, ": ");
        m.append(error);
        Error::Storage(m)
    }

    /// The session a load gives, from what reading its file at `path` gave: the stored
    /// session; one rebuilt from an older transcript; an empty one when there is no
    /// file; or an error.
    pub fn loaded(path: &str, outcome: LoadOutcome) -> (r: Result<SessionState, Error>)
        ensures
            match outcome {
                LoadOutcome::Found(StoredSession::Current(s)) => r matches Ok(t) && t@ == s@,
                LoadOutcome::Found(StoredSession::Legacy(ms)) => r matches Ok(t)
                    && t.transcript@ == ms@ && t@.context == spec_legacy_context(message_views(ms@))
                    && t@.compaction_count == 0 && t@.pending is None && t@.last_input_tokens == 0
                    && t@.last_error is None,
                LoadOutcome::Missing => r matches Ok(t) && t@ == empty_session(),
                LoadOutcome::Unreadable(e) => r matches Err(Error::Storage(m)) && m@
                    == storage_message(path@, e@),
                LoadOutcome::Invalid(e) => r matches Err(Error::Storage(m)) && m@ == e@,
            },
    {
        match outcome {
            LoadOutcome::Found(StoredSession::Current(s)) => Ok(s),
            LoadOutcome::Found(StoredSession::Legacy(ms)) => Ok(SessionState::from_legacy(ms)),
            LoadOutcome::Missing => {
                let s = SessionState::new();
                proof {
                    assert(s@.transcript =~= Seq::<MessageView>::empty());
                    assert(s@.context =~= Seq::<ItemView>::empty());
                }
                Ok(s)
            },
            LoadOutcome::Unreadable(e) => Err(Self::storage_error(path, e.as_str())),
            LoadOutcome::Invalid(e) => Err(Error::Storage(e)),
        }
    }
}

/// The texts appear in ascending order.
pub open spec fn sorted_texts(v: Seq<String>) -> bool {
    forall|i: int, j: int| 0 <= i < j < v.len() ==> !text_lt(#[trigger] v[j]@, #[trigger] v[i]@)
}

/// Sorts texts in ascending order (insertion sort).
pub fn sort_texts(texts_v: &mut Vec<String>)
    ensures
        sorted_texts(final(texts_v)@),
        final(texts_v)@.to_multiset() == old(texts_v)@.to_multiset(),
{
    let n = texts_v.len();
    if n == 0 {
        return;
    }
    let mut i: usize = 1;
    while i < n
        invariant
            1 <= i <= n,
            n == texts_v@.len(),
            sorted_texts(texts_v@.take(i as int)),
            texts_v@.to_multiset() == old(texts_v)@.to_multiset(),
        decreases n - i,
    {
        let ghost s0 = texts_v@;
        let key = chars_of(texts_v[i].as_str());
        let mut j: usize = i;
        while j > 0 && text_less(&key, &chars_of(texts_v[j - 1].as_str()))
            invariant
                0 <= j <= i < n,
                n == texts_v@.len(),
                texts_v@ == s0,
                key@ == s0[i as int]@,
                forall|k: int| j <= k < i ==> text_lt(key@, #[trigger] s0[k]@),
            decreases j,
        {
            j -= 1;
        }
        let x = texts_v.remove(i);
        texts_v.insert(j, x);
        proof {
            let t = texts_v@;
            let r = s0.remove(i as int);
            assert(t == r.insert(j as int, s0[i as int]));
            s0.to_multiset_ensures();
            t.to_multiset_ensures();
            assert(t.remove(j as int) =~= r);
            assert(t[j as int] == s0[i as int]);
            assert(t.to_multiset() =~= s0.to_multiset()) by {
                assert(t.remove(j as int).to_multiset() =~= t.to_multiset().remove(t[j as int]));
                assert(s0.remove(i as int).to_multiset() =~= s0.to_multiset().remove(s0[i as int]));
                assert(t.to_multiset().remove(s0[i as int]) =~= s0.to_multiset().remove(s0[i as int]));
                assert(t.to_multiset().count(s0[i as int]) > 0);
                assert(s0.to_multiset().count(s0[i as int]) > 0);
                assert forall|v: String| #[trigger] t.to_multiset().count(v) == s0.to_multiset().count(v) by {
                    if v != s0[i as int] {
                        assert(t.to_multiset().remove(s0[i as int]).count(v) == t.to_multiset().count(v));
                        assert(s0.to_multiset().remove(s0[i as int]).count(v) == s0.to_multiset().count(v));
                    } else {
                        assert(t.to_multiset().remove(s0[i as int]).count(v) == t.to_multiset().count(v) - 1);
                        assert(s0.to_multiset().remove(s0[i as int]).count(v) == s0.to_multiset().count(v) - 1);
                    }
                }
            }
            let u = t.take(i + 1);
            let key_name = s0[i as int]@;
            assert forall|a: int, b: int| 0 <= a < b < u.len() implies !text_lt(
                #[trigger] u[b]@,
                #[trigger] u[a]@,
            ) by {
                let w = s0.take(i as int);
                if a == j as int {
                    assert(u[b] == s0[b - 1]);
                    lemma_text_lt_total(key_name, u[b]@);
                } else if b == j as int {
                    assert(u[a] == s0[a]);
                    lemma_text_lt_total(key_name, s0[j - 1]@);
                    if a < j - 1 {
                        assert(w[a] == s0[a] && w[j - 1] == s0[j - 1]);
                        assert(!text_lt(s0[j - 1]@, s0[a]@));
                        lemma_text_lt_trans(s0[a]@, s0[j - 1]@, key_name);
                    }
                } else {
                    let oa = if a < j { a } else { a - 1 };
                    let ob = if b < j { b } else { b - 1 };
                    assert(u[a] == s0[oa] && u[b] == s0[ob]);
                    assert(w[oa] == s0[oa] && w[ob] == s0[ob]);
                }
            }
        }
        i += 1;
    }
    proof {
        assert(texts_v@.take(n as int) =~= texts_v@);
    }
}

/// A directory entry: its name and whether it is a regular file.
#[derive(Debug, Clone, PartialEq, Eq)]
pub struct DirEntry {
    pub name: String,
    pub is_file: bool,
}

/// The index of the last `.` in `name`, or -1.
pub open spec fn last_dot(name: Seq<char>, k: int) -> int
    decreases k,
{
    if k <= 0 {
        -1
    } else if name[k - 1] == '.' {
        k - 1
    } else {
        last_dot(name, k - 1)
    }
}

/// The session a file name stands for: the name before a `.json` extension. A name
/// whose only dot starts it has no extension.
pub open spec fn json_stem(name: Seq<char>) -> Option<Seq<char>> {
    let k = last_dot(name, name.len() as int);
    if k > 0 && name.skip(k + 1) == "json"@ {
        Some(name.take(k))
    } else {
        None
    }
}

/// The session names that `entries` stand for, in their order.
pub open spec fn entry_sessions(entries: Seq<DirEntry>) -> Seq<Seq<char>>
    decreases entries.len(),
{
    if entries.len() == 0 {
        seq![]
    } else {
        let rest = entry_sessions(entries.drop_last());
        let e = entries.last();
        match json_stem(e.name@) {
            Some(n) => if e.is_file {
                rest.push(n)
            } else {
                rest
            },
            None => rest,
        }
    }
}

/// The session a file name stands for, if it is one.
fn stem_of(name: &String) -> (r: Option<String>)
    ensures
        match json_stem(name@) {
            Some(n) => r matches Some(s) && s@ == n,
            None => r is None,
        },
{
    let v = chars_of(name.as_str());
    let mut k = v.len();
    while k > 0 && v[k - 1] != '.'
        invariant
            k <= v.len(),
            v@ == name@,
            last_dot(name@, name@.len() as int) == last_dot(name@, k as int),
        decreases k,
    {
        k -= 1;
    }
    if k <= 1 {
        return None;
    }
    let dot = k - 1;
    let ext = string_from_range(&v, dot + 1, v.len());
    let json = String::from_str("json");
    proof {
        assert(v@.subrange(dot + 1, v@.len() as int) =~= name@.skip(dot + 1));
        assert(v@.subrange(0, dot as int) =~= name@.take(dot as int));
    }
    if ext == json {
        Some(string_from_range(&v, 0, dot))
    } else {
        None
    }
}

/// The saved sessions among the entries of the session directory: the names of the
/// regular `.json` files without their extension, sorted.
pub fn session_names(entries: &Vec<DirEntry>) -> (names: Vec<String>)
    ensures
        sorted_texts(names@),
        texts(names@).to_multiset() == entry_sessions(entries@).to_multiset(),
{
    let mut names: Vec<String> = Vec::new();
    let mut i: usize = 0;
    while i < entries.len()
        invariant
            i <= entries.len(),
            texts(names@) == entry_sessions(entries@.take(i as int)),
        decreases entries.len() - i,
    {
        proof {
            assert(entries@.take(i + 1).drop_last() =~= entries@.take(i as int));
            assert(entries@.take(i + 1).last() == entries@[i as int]);
        }
        if entries[i].is_file {
            match stem_of(&entries[i].name) {
                Some(n) => {
                    let ghost before = names@;
                    names.push(n);
                    proof {
                        assert(texts(names@) =~= texts(before).push(names@.last()@));
                    }
                },
                None => {},
            }
        }
        i += 1;
    }
    proof {
        assert(entries@.take(entries.len() as int) =~= entries@);
    }
    let ghost unsorted = names@;
    sort_texts(&mut names);
    proof {
        lemma_texts_multiset(unsorted, names@);
    }
    names
}

/// Texts of sequences with the same elements have the same elements.
pub proof fn lemma_texts_multiset(a: Seq<String>, b: Seq<String>)
    requires
        a.to_multiset() == b.to_multiset(),
    ensures
        texts(a).to_multiset() == texts(b).to_multiset(),
    decreases a.len(),
{
    a.to_multiset_ensures();
    b.to_multiset_ensures();
    if a.len() == 0 {
        assert(b.to_multiset().len() == 0);
        assert(texts(a) =~= texts(b));
    } else {
        let x = a.last();
        let a1 = a.drop_last();
        a1.to_multiset_ensures();
        assert(a1.push(x) =~= a);
        assert(b.to_multiset().count(x) > 0);
        let j = choose|j: int| 0 <= j < b.len() && b[j] == x;
        let b1 = b.remove(j);
        assert(a1.to_multiset() =~= b1.to_multiset());
        lemma_texts_multiset(a1, b1);
        texts(a1).to_multiset_ensures();
        texts(b).to_multiset_ensures();
        assert(texts(a) =~= texts(a1).push(x@));
        assert(texts(b1) =~= texts(b).remove(j));
        assert(texts(b)[j] == x@);
        assert(texts(a).to_multiset() =~= texts(b).to_multiset());
    }
}

} // verus!
