//! The Slack adapter: irreversible effects that are described when they are
//! submitted and sent only at commit.

use vstd::prelude::*;

use crate::adapters::slack_decode;
use crate::capability;
use crate::capability::{Capability, OpKind};
use crate::effect;
use crate::effect::EffectDescriptor;
use crate::error::ReelError;
use crate::interop::json;
use crate::text;
use crate::text::{decimal_string, same_text, starts_with};

verus! {

/// The namespace that channels are named in.
pub const SLACK_PATH_PREFIX_BASE: &'static str = "slack:channel:";

/// The number of characters of a message that a preview shows.
pub const EXCERPT_CHARS: usize = 80;

/// Why the adapter refused or failed.
#[derive(Debug)]
pub enum SlackError {
    /// The capability does not permit the operation.
    CapabilityDenied(String),
    /// The remote system did not answer in time.
    Timeout,
    /// The remote system rejected the request.
    Api(String),
    /// A payload could not be encoded or decoded.
    Codec(String),
}

impl SlackError {
    /// The message of the error.
    pub open spec fn message(&self) -> Seq<char> {
        match self {
            SlackError::CapabilityDenied(m) =>
                "capability does not authorise this slack operation: "@ + m@,
            SlackError::Timeout => "slack api timeout"@,
            SlackError::Api(m) => "slack api rejected request: "@ + m@,
            SlackError::Codec(m) => "slack payload codec error: "@ + m@,
        }
    }

    /// The error is a denial with this text.
    pub open spec fn is_denial(&self, text: Seq<char>) -> bool {
        *self matches SlackError::CapabilityDenied(m) && m@ == text
    }

    /// Renders the error.
    pub fn to_string(&self) -> (s: String)
        ensures
            s@ == self.message(),
    {
        match self {
            SlackError::CapabilityDenied(m) => String::from_str(
                "capability does not authorise this slack operation: ",
            ).concat(m.as_str()),
            SlackError::Timeout => String::from_str("slack api timeout"),
            SlackError::Api(m) => String::from_str("slack api rejected request: ").concat(
                m.as_str(),
            ),
            SlackError::Codec(m) => String::from_str("slack payload codec error: ").concat(
                m.as_str(),
            ),
        }
    }
}

/// The protocol error that an error of the adapter surfaces as.
pub open spec fn protocol_error(e: SlackError) -> ReelError {
    match e {
        SlackError::CapabilityDenied(m) => ReelError::CapabilityViolation(m),
        SlackError::Timeout => ReelError::EffectDrainTimeout,
        SlackError::Api(m) => ReelError::Storage(m),
        SlackError::Codec(m) => ReelError::Storage(m),
    }
}

/// What firing gives back for an answer of the transport.
pub open spec fn settled(answer: Result<TransportRecord, SlackError>) -> Result<
    TransportRecord,
    ReelError,
> {
    match answer {
        Ok(record) => Ok(record),
        Err(e) => Err(protocol_error(e)),
    }
}

impl From<SlackError> for ReelError {
    fn from(value: SlackError) -> (e: ReelError) {
        match value {
            SlackError::CapabilityDenied(m) => ReelError::CapabilityViolation(m),
            SlackError::Timeout => ReelError::EffectDrainTimeout,
            SlackError::Api(m) => ReelError::Storage(m),
            SlackError::Codec(m) => ReelError::Storage(m),
        }
    }
}

impl vstd::std_specs::convert::FromSpecImpl<SlackError> for ReelError {
    open spec fn obeys_from_spec() -> bool {
        true
    }

    open spec fn from_spec(value: SlackError) -> ReelError {
        protocol_error(value)
    }
}

/// An operation of the adapter.
#[derive(Debug, PartialEq, Eq)]
pub enum SlackOp {
    /// Sends a message.
    PostMessage {
        /// The channel.
        channel: String,
        /// The message.
        text: String,
    },
    /// Changes a message.
    EditMessage {
        /// The channel.
        channel: String,
        /// The timestamp that names the message.
        ts: String,
        /// The new message.
        text: String,
    },
    /// Deletes a message.
    DeleteMessage {
        /// The channel.
        channel: String,
        /// The timestamp that names the message.
        ts: String,
    },
}

/// What a [`SlackOp`] holds.
pub enum Action {
    /// Sends a message: channel and text.
    Post(Seq<char>, Seq<char>),
    /// Changes a message: channel, timestamp and text.
    Edit(Seq<char>, Seq<char>, Seq<char>),
    /// Deletes a message: channel and timestamp.
    Delete(Seq<char>, Seq<char>),
}

/// The text of the field `key`, where the fields hold one.
pub open spec fn text_field(fields: Map<Seq<char>, json::JsonTree>, key: Seq<char>) -> Option<
    Seq<char>,
> {
    if fields.dom().contains(key) {
        text_of(fields[key])
    } else {
        None
    }
}

/// The text that a JSON value is, where it is one.
pub open spec fn text_of(j: json::JsonTree) -> Option<Seq<char>> {
    match j {
        json::JsonTree::Text(s) => Some(s),
        _ => None,
    }
}

/// The fields of an operation without its name.
pub open spec fn no_fields() -> Map<Seq<char>, json::JsonTree> {
    Map::empty()
}

impl Action {
    /// The name of the operation.
    pub open spec fn verb(self) -> Seq<char> {
        match self {
            Action::Post(_, _) => "post_message"@,
            Action::Edit(_, _, _) => "edit_message"@,
            Action::Delete(_, _) => "delete_message"@,
        }
    }

    /// The channel.
    pub open spec fn channel(self) -> Seq<char> {
        match self {
            Action::Post(c, _) => c,
            Action::Edit(c, _, _) => c,
            Action::Delete(c, _) => c,
        }
    }

    /// The JSON form: an object with the name of the operation as `action`.
    pub open spec fn tree(self) -> json::JsonTree {
        let named = no_fields().insert("action"@, json::JsonTree::Text(self.verb())).insert(
            "channel"@,
            json::JsonTree::Text(self.channel()),
        );
        json::JsonTree::Object(
            match self {
                Action::Post(_, t) => named.insert("text"@, json::JsonTree::Text(t)),
                Action::Edit(_, ts, t) => named.insert("ts"@, json::JsonTree::Text(ts)).insert(
                    "text"@,
                    json::JsonTree::Text(t),
                ),
                Action::Delete(_, ts) => named.insert("ts"@, json::JsonTree::Text(ts)),
            },
        )
    }

    /// What a preview of the operation with the number `id` shows: never more
    /// of a message than its excerpt.
    pub open spec fn preview(self, id: u64) -> json::JsonTree {
        let named = no_fields().insert("effect_id"@, json::JsonTree::Unsigned(id)).insert(
            "action"@,
            json::JsonTree::Text(self.verb()),
        ).insert("channel"@, json::JsonTree::Text(self.channel()));
        json::JsonTree::Object(
            match self {
                Action::Post(_, t) => named.insert(
                    "text_excerpt"@,
                    json::JsonTree::Text(excerpt(t)),
                ),
                Action::Edit(_, ts, t) => named.insert("ts"@, json::JsonTree::Text(ts)).insert(
                    "text_excerpt"@,
                    json::JsonTree::Text(excerpt(t)),
                ),
                Action::Delete(_, ts) => named.insert("ts"@, json::JsonTree::Text(ts)),
            },
        )
    }
}

/// The operation with this name whose fields are found by `get`, by name and
/// by position behind the name.
pub open spec fn action_from(
    verb: Seq<char>,
    get: spec_fn(Seq<char>, int) -> Option<Seq<char>>,
) -> Option<Action> {
    if verb == "post_message"@ {
        match (get("channel"@, 1), get("text"@, 2)) {
            (Some(c), Some(t)) => Some(Action::Post(c, t)),
            _ => None,
        }
    } else if verb == "edit_message"@ {
        match (get("channel"@, 1), get("ts"@, 2), get("text"@, 3)) {
            (Some(c), Some(ts), Some(t)) => Some(Action::Edit(c, ts, t)),
            _ => None,
        }
    } else if verb == "delete_message"@ {
        match (get("channel"@, 1), get("ts"@, 2)) {
            (Some(c), Some(ts)) => Some(Action::Delete(c, ts)),
            _ => None,
        }
    } else {
        None
    }
}

/// The number of items of an operation that is written as a list.
pub open spec fn list_len(a: Action) -> nat {
    match a {
        Action::Edit(_, _, _) => 4,
        _ => 3,
    }
}

/// The operation that a JSON value describes: an object with its fields by
/// name, where other fields do not matter, or a list of exactly the name and
/// the fields in order.
pub open spec fn action_of(j: json::JsonTree) -> Option<Action> {
    match j {
        json::JsonTree::Object(fields) => match text_field(fields, "action"@) {
            Some(verb) => action_from(verb, |key: Seq<char>, i: int| text_field(fields, key)),
            None => None,
        },
        json::JsonTree::List(items) => if items.len() == 0 {
            None
        } else {
            match text_of(items[0]) {
                Some(verb) => match action_from(
                    verb,
                    |key: Seq<char>, i: int|
                        if i < items.len() {
                            text_of(items[i])
                        } else {
                            None
                        },
                ) {
                    Some(a) => if items.len() == list_len(a) {
                        Some(a)
                    } else {
                        None
                    },
                    None => None,
                },
                None => None,
            }
        },
        _ => None,
    }
}

fn field_text(v: &serde_json::Value, key: &str) -> (r: Option<String>)
    ensures
        match r {
            Some(s) => json::json_tree(*v) matches json::JsonTree::Object(m) && text_field(m, key@)
                == Some(s@),
            None => json::json_tree(*v) matches json::JsonTree::Object(m) ==> text_field(m, key@)
                is None,
        },
{
    match json::field(v, key) {
        Some(f) => match f.as_str() {
            Some(s) => Some(s.to_owned()),
            None => None,
        },
        None => None,
    }
}

fn item_text(items: &Vec<serde_json::Value>, i: usize) -> (r: Option<String>)
    ensures
        match r {
            Some(s) => i < items@.len() && text_of(json::json_trees(items@)[i as int]) == Some(s@),
            None => i < items@.len() ==> text_of(json::json_trees(items@)[i as int]) is None,
        },
{
    if i < items.len() {
        assert(json::json_trees(items@)[i as int] == json::json_tree(items@[i as int]));
        match items[i].as_str() {
            Some(s) => Some(s.to_owned()),
            None => None,
        }
    } else {
        None
    }
}

/// What an optional operation holds.
pub open spec fn optional_action(op: Option<SlackOp>) -> Option<Action> {
    match op {
        Some(o) => Some(o.view()),
        None => None,
    }
}

fn op_from_parts(
    verb: &str,
    channel: Option<String>,
    post_text: Option<String>,
    ts: Option<String>,
    edit_text: Option<String>,
) -> (r: Option<SlackOp>)
    ensures
        optional_action(r) == (if verb@ == "post_message"@ {
            match (channel, post_text) {
                (Some(c), Some(t)) => Some(Action::Post(c@, t@)),
                _ => None,
            }
        } else if verb@ == "edit_message"@ {
            match (channel, ts, edit_text) {
                (Some(c), Some(s), Some(t)) => Some(Action::Edit(c@, s@, t@)),
                _ => None,
            }
        } else if verb@ == "delete_message"@ {
            match (channel, ts) {
                (Some(c), Some(s)) => Some(Action::Delete(c@, s@)),
                _ => None,
            }
        } else {
            None
        }),
{
    if same_text(verb, "post_message") {
        match (channel, post_text) {
            (Some(channel), Some(text)) => Some(SlackOp::PostMessage { channel, text }),
            _ => None,
        }
    } else if same_text(verb, "edit_message") {
        match (channel, ts, edit_text) {
            (Some(channel), Some(ts), Some(text)) => Some(SlackOp::EditMessage { channel, ts, text }),
            _ => None,
        }
    } else if same_text(verb, "delete_message") {
        match (channel, ts) {
            (Some(channel), Some(ts)) => Some(SlackOp::DeleteMessage { channel, ts }),
            _ => None,
        }
    } else {
        None
    }
}

impl SlackOp {
    /// What the operation holds.
    pub open spec fn view(&self) -> Action {
        match self {
            SlackOp::PostMessage { channel, text } => Action::Post(channel@, text@),
            SlackOp::EditMessage { channel, ts, text } => Action::Edit(channel@, ts@, text@),
            SlackOp::DeleteMessage { channel, ts } => Action::Delete(channel@, ts@),
        }
    }

    /// The channel.
    #[must_use]
    pub fn channel(&self) -> (s: &str)
        ensures
            s@ == self.view().channel(),
    {
        match self {
            SlackOp::PostMessage { channel, .. } => channel.as_str(),
            SlackOp::EditMessage { channel, .. } => channel.as_str(),
            SlackOp::DeleteMessage { channel, .. } => channel.as_str(),
        }
    }

    /// The name of the operation.
    #[must_use]
    pub fn verb(&self) -> (s: &'static str)
        ensures
            s@ == self.view().verb(),
    {
        match self {
            SlackOp::PostMessage { .. } => "post_message",
            SlackOp::EditMessage { .. } => "edit_message",
            SlackOp::DeleteMessage { .. } => "delete_message",
        }
    }

    /// Builds the JSON form.
    pub fn to_json(&self) -> (v: serde_json::Value)
        ensures
            json::json_tree(v) == self.view().tree(),
    {
        let mut v = json::empty_object();
        json::set_field(&mut v, "action", json::text_json(self.verb()));
        json::set_field(&mut v, "channel", json::text_json(self.channel()));
        match self {
            SlackOp::PostMessage { text, .. } => {
                json::set_field(&mut v, "text", json::text_json(text.as_str()));
            },
            SlackOp::EditMessage { ts, text, .. } => {
                json::set_field(&mut v, "ts", json::text_json(ts.as_str()));
                json::set_field(&mut v, "text", json::text_json(text.as_str()));
            },
            SlackOp::DeleteMessage { ts, .. } => {
                json::set_field(&mut v, "ts", json::text_json(ts.as_str()));
            },
        }
        v
    }

    /// Reads the operation that a JSON value describes.
    pub fn from_json(v: &serde_json::Value) -> (r: Option<SlackOp>)
        ensures
            optional_action(r) == action_of(json::json_tree(*v)),
    {
        if let Some(verb) = field_text(v, "action") {
            return op_from_parts(
                verb.as_str(),
                field_text(v, "channel"),
                field_text(v, "text"),
                field_text(v, "ts"),
                field_text(v, "text"),
            );
        }
        let items = match v.as_array() {
            Some(a) => a,
            None => return None,
        };
        let verb = match item_text(items, 0) {
            Some(s) => s,
            None => return None,
        };
        let op = op_from_parts(
            verb.as_str(),
            item_text(items, 1),
            item_text(items, 2),
            item_text(items, 2),
            item_text(items, 3),
        );
        match op {
            Some(o) => {
                let len: usize = match &o {
                    SlackOp::EditMessage { .. } => 4,
                    _ => 3,
                };
                if items.len() == len {
                    Some(o)
                } else {
                    None
                }
            },
            None => None,
        }
    }
}

impl Clone for SlackOp {
    fn clone(&self) -> (o: Self)
        ensures
            o.view() == self.view(),
    {
        match self {
            SlackOp::PostMessage { channel, text } => SlackOp::PostMessage {
                channel: channel.clone(),
                text: text.clone(),
            },
            SlackOp::EditMessage { channel, ts, text } => SlackOp::EditMessage {
                channel: channel.clone(),
                ts: ts.clone(),
                text: text.clone(),
            },
            SlackOp::DeleteMessage { channel, ts } => SlackOp::DeleteMessage {
                channel: channel.clone(),
                ts: ts.clone(),
            },
        }
    }
}

/// What a preview shows of a message: all of a short one, and the first
/// characters of a long one with an ellipsis behind them.
pub open spec fn excerpt(t: Seq<char>) -> Seq<char> {
    if t.len() <= EXCERPT_CHARS {
        t
    } else {
        t.take(EXCERPT_CHARS as int).push('\u{2026}')
    }
}

/// Cuts a message down to what a preview shows.
pub fn redact_text(text: &str) -> (s: String)
    ensures
        s@ == excerpt(text@),
{
    let mut chars = text.chars();
    let mut head = String::new();
    let mut n: usize = 0;
    while n < EXCERPT_CHARS
        invariant
            n <= EXCERPT_CHARS,
            n <= text@.len(),
            vstd::std_specs::iter::IteratorSpec::obeys_prophetic_iter_laws(&chars),
            vstd::std_specs::iter::IteratorSpec::remaining(&chars) == text@.skip(n as int),
            head@ == text@.take(n as int),
        decreases EXCERPT_CHARS - n,
    {
        match chars.next() {
            None => {
                assert(text@.take(n as int) =~= text@);
                return head;
            },
            Some(c) => {
                head.push(c);
                proof {
                    assert(text@.skip(n as int).drop_first() =~= text@.skip(n + 1));
                    assert(text@.take(n + 1) =~= text@.take(n as int).push(c));
                }
                n += 1;
            },
        }
    }
    match chars.next() {
        None => {
            assert(text@.take(n as int) =~= text@);
            head
        },
        Some(_) => {
            head.push('\u{2026}');
            head
        },
    }
}

/// The name of a channel in the namespace.
pub open spec fn channel_target(channel: Seq<char>) -> Seq<char> {
    SLACK_PATH_PREFIX_BASE@ + channel
}

/// The authority permits the operation: it may fire irreversible effects, its
/// prefix covers the channel, and its lifetime is set.
pub open spec fn may_fire(a: Action, cap: capability::Authority) -> bool {
    &&& cap.op_set.view().contains(OpKind::FireC)
    &&& text::has_prefix(channel_target(a.channel()), cap.path_prefix)
    &&& cap.ttl != 0
}

/// Why the authority does not permit the operation: the first rule that fails.
pub open spec fn fire_refusal(a: Action, cap: capability::Authority) -> Seq<char> {
    if !cap.op_set.view().contains(OpKind::FireC) {
        "I-003: op_set missing FireC; supplied set has "@ + text::decimal(
            cap.op_set.spec_members().len(),
        ) + " entries"@
    } else if !text::has_prefix(channel_target(a.channel()), cap.path_prefix) {
        "I-003: channel target '"@ + channel_target(a.channel())
            + "' is not covered by path_prefix '"@ + cap.path_prefix + "'"@
    } else {
        "I-003: ttl is 0, which counts as expired"@
    }
}

/// What the transport reports of a message that was sent.
#[derive(Debug, PartialEq, Eq)]
pub struct TransportRecord {
    /// The timestamp that names the message.
    pub message_ts: String,
    /// What the adapter knows of the exchange, without the message.
    pub diagnostic: serde_json::Value,
}

/// What a [`TransportRecord`] holds.
pub struct Report {
    /// The timestamp.
    pub ts: Seq<char>,
    /// What the adapter knows of the exchange.
    pub diagnostic: json::JsonTree,
}

impl TransportRecord {
    /// What the record holds.
    pub open spec fn view(&self) -> Report {
        Report { ts: self.message_ts@, diagnostic: json::json_tree(self.diagnostic) }
    }
}

impl Clone for TransportRecord {
    fn clone(&self) -> (r: Self)
        ensures
            r.view() == self.view(),
    {
        TransportRecord {
            message_ts: self.message_ts.clone(),
            diagnostic: json::duplicate(&self.diagnostic),
        }
    }
}

/// The report of a mock transport that was given no answers.
pub open spec fn default_report() -> Report {
    Report {
        ts: "1700000000.000100"@,
        diagnostic: json::JsonTree::Object(
            no_fields().insert("http_status"@, json::JsonTree::Unsigned(200)).insert(
                "ok"@,
                json::JsonTree::Bool(true),
            ),
        ),
    }
}

/// What a list of operations holds.
pub open spec fn actions_of(ops: Seq<SlackOp>) -> Seq<Action> {
    ops.map_values(|o: SlackOp| o.view())
}

/// A transport that sends nothing: it remembers what it was asked to send and
/// gives scripted answers.
#[derive(Debug)]
pub struct MockTransport {
    sends: Vec<SlackOp>,
    responses: Vec<Result<TransportRecord, SlackError>>,
    default_record: TransportRecord,
}

impl MockTransport {
    /// What it was asked to send, in order.
    pub closed spec fn sent(&self) -> Seq<Action> {
        actions_of(self.sends@)
    }

    /// The answers that are still to be given, in order.
    pub closed spec fn script(&self) -> Seq<Result<TransportRecord, SlackError>> {
        self.responses@
    }

    /// What it answers when the script is over.
    pub closed spec fn fallback(&self) -> Report {
        self.default_record.view()
    }

    /// A transport that answers every request with the same success.
    #[must_use]
    pub fn new() -> (t: Self)
        ensures
            t.sent() == Seq::<Action>::empty(),
            t.script() == Seq::<Result<TransportRecord, SlackError>>::empty(),
            t.fallback() == default_report(),
    {
        let mut diagnostic = json::empty_object();
        json::set_field(&mut diagnostic, "http_status", json::number_json(200));
        json::set_field(&mut diagnostic, "ok", json::flag_json(true));
        let t = MockTransport {
            sends: Vec::new(),
            responses: Vec::new(),
            default_record: TransportRecord {
                message_ts: String::from_str("1700000000.000100"),
                diagnostic,
            },
        };
        assert(t.sent() =~= Seq::<Action>::empty());
        t
    }

    /// The same transport with a script of answers.
    #[must_use]
    pub fn with_responses(self, responses: Vec<Result<TransportRecord, SlackError>>) -> (t: Self)
        ensures
            t.sent() == self.sent(),
            t.script() == responses@,
            t.fallback() == self.fallback(),
    {
        MockTransport { sends: self.sends, responses, default_record: self.default_record }
    }

    /// What it was asked to send, in order.
    #[must_use]
    pub fn captured(&self) -> (v: Vec<SlackOp>)
        ensures
            actions_of(v@) == self.sent(),
    {
        let mut v: Vec<SlackOp> = Vec::new();
        let mut i: usize = 0;
        while i < self.sends.len()
            invariant
                i <= self.sends@.len(),
                v@.len() == i,
                forall|j: int| 0 <= j < i ==> (#[trigger] v@[j]).view() == self.sends@[j].view(),
            decreases self.sends@.len() - i,
        {
            v.push(self.sends[i].clone());
            i += 1;
        }
        assert(actions_of(v@) =~= self.sent());
        v
    }

    /// How often it was asked to send.
    #[must_use]
    pub fn send_count(&self) -> (n: usize)
        ensures
            n == self.sent().len(),
    {
        self.sends.len()
    }

    /// Remembers the operation and gives the next answer.
    pub fn send(&mut self, op: &SlackOp) -> (r: Result<TransportRecord, SlackError>)
        ensures
            final(self).sent() == old(self).sent().push(op.view()),
            final(self).fallback() == old(self).fallback(),
            if old(self).script().len() > 0 {
                r == old(self).script()[0] && final(self).script() == old(self).script().skip(1)
            } else {
                (r matches Ok(record) && record.view() == old(self).fallback())
                    && final(self).script() == old(self).script()
            },
    {
        let ghost before = self.sends@;
        self.sends.push(op.clone());
        assert(actions_of(self.sends@) =~= actions_of(before).push(op.view()));
        if self.responses.len() > 0 {
            let r = self.responses.remove(0);
            assert(self.responses@ =~= old(self).responses@.skip(1));
            r
        } else {
            Ok(self.default_record.clone())
        }
    }
}

impl Default for MockTransport {
    fn default() -> (t: Self)
        ensures
            t.sent() == Seq::<Action>::empty(),
            t.script() == Seq::<Result<TransportRecord, SlackError>>::empty(),
            t.fallback() == default_report(),
    {
        MockTransport::new()
    }
}

/// Describes operations as irreversible effects, and decides at commit which
/// of them may be sent through its transport.
#[derive(Debug)]
pub struct SlackAdapter<T> {
    transport: T,
    next_id: u64,
}

/// The number behind `n`, with the first one behind the last.
pub open spec fn following(n: u64) -> u64 {
    if n == u64::MAX {
        0
    } else {
        (n + 1) as u64
    }
}

impl<T> SlackAdapter<T> {
    /// The transport.
    pub closed spec fn spec_transport(&self) -> T {
        self.transport
    }

    /// The number of the next effect.
    pub closed spec fn next(&self) -> u64 {
        self.next_id
    }

    /// An adapter over `transport` that has described nothing yet.
    pub fn new(transport: T) -> (a: Self)
        ensures
            a.spec_transport() == transport,
            a.next() == 0,
    {
        SlackAdapter { transport, next_id: 0 }
    }

    /// The transport.
    pub fn transport(&self) -> (t: &T)
        ensures
            *t == self.spec_transport(),
    {
        &self.transport
    }

    fn describe(&mut self, op: SlackOp) -> (d: EffectDescriptor)
        ensures
            final(self).spec_transport() == old(self).spec_transport(),
            final(self).next() == following(old(self).next()),
            d.view() == effect::Descriptor::C(old(self).next(), op.view().tree()),
    {
        let effect_id: u64 = self.next_id;
        self.next_id = if effect_id == u64::MAX {
            0
        } else {
            effect_id + 1
        };
        EffectDescriptor::C { effect_id, op: op.to_json() }
    }

    /// Describes the sending of a message.
    pub fn post_message(&mut self, channel: &str, text: &str) -> (r: Result<
        EffectDescriptor,
        ReelError,
    >)
        ensures
            final(self).spec_transport() == old(self).spec_transport(),
            final(self).next() == following(old(self).next()),
            r matches Ok(d) && d.view() == effect::Descriptor::C(
                old(self).next(),
                Action::Post(channel@, text@).tree(),
            ),
    {
        Ok(
            self.describe(
                SlackOp::PostMessage { channel: channel.to_owned(), text: text.to_owned() },
            ),
        )
    }

    /// Describes the change of a message.
    pub fn edit_message(&mut self, channel: &str, ts: &str, text: &str) -> (r: Result<
        EffectDescriptor,
        ReelError,
    >)
        ensures
            final(self).spec_transport() == old(self).spec_transport(),
            final(self).next() == following(old(self).next()),
            r matches Ok(d) && d.view() == effect::Descriptor::C(
                old(self).next(),
                Action::Edit(channel@, ts@, text@).tree(),
            ),
    {
        Ok(
            self.describe(
                SlackOp::EditMessage {
                    channel: channel.to_owned(),
                    ts: ts.to_owned(),
                    text: text.to_owned(),
                },
            ),
        )
    }

    /// Describes the deletion of a message.
    pub fn delete_message(&mut self, channel: &str, ts: &str) -> (r: Result<
        EffectDescriptor,
        ReelError,
    >)
        ensures
            final(self).spec_transport() == old(self).spec_transport(),
            final(self).next() == following(old(self).next()),
            r matches Ok(d) && d.view() == effect::Descriptor::C(
                old(self).next(),
                Action::Delete(channel@, ts@).tree(),
            ),
    {
        Ok(self.describe(SlackOp::DeleteMessage { channel: channel.to_owned(), ts: ts.to_owned() }))
    }
}

/// The text of the refusal of a payload for `purpose`.
pub open spec fn payload_refusal(purpose: Seq<char>, reason: Seq<char>) -> Seq<char> {
    "decode op for "@ + purpose + ": "@ + reason
}

/// Why a descriptor cannot be used for `purpose`.
pub open spec fn decode_refusal(d: effect::Descriptor, purpose: Seq<char>) -> Seq<char> {
    if let effect::Descriptor::C(_, op) = d {
        payload_refusal(purpose, slack_decode::problem_of(op)->0)
    } else {
        "expected Class C descriptor, got "@ + d.debug_text()
    }
}

/// The operation that a descriptor describes.
pub open spec fn described(d: effect::Descriptor) -> Option<Action> {
    match d {
        effect::Descriptor::C(_, op) => action_of(op),
        _ => None,
    }
}

fn decode(descriptor: &EffectDescriptor, purpose: &str) -> (r: Result<SlackOp, ReelError>)
    ensures
        match r {
            Ok(op) => described(descriptor.view()) == Some(op.view()),
            Err(e) => described(descriptor.view()) is None && e.is_storage(
                decode_refusal(descriptor.view(), purpose@),
            ),
        },
{
    match descriptor {
        EffectDescriptor::C { op, .. } => {
            proof {
                slack_decode::law_every_refusal_has_a_reason(json::json_tree(*op));
            }
            match SlackOp::from_json(op) {
                Some(o) => Ok(o),
                None => {
                    let reason = slack_decode::problem(op).unwrap_or(String::new());
                    Err(
                        ReelError::from(
                            SlackError::Codec(
                                String::from_str("decode op for ").concat(purpose).concat(
                                    ": ",
                                ).concat(reason.as_str()),
                            ),
                        ),
                    )
                },
            }
        },
        _ => Err(
            ReelError::from(
                SlackError::Codec(
                    String::from_str("expected Class C descriptor, got ").concat(
                        descriptor.debug_string().as_str(),
                    ),
                ),
            ),
        ),
    }
}

/// Builds the preview of an operation.
pub fn preview_json(effect_id: u64, op: &SlackOp) -> (v: serde_json::Value)
    ensures
        json::json_tree(v) == op.view().preview(effect_id),
{
    let mut v = json::empty_object();
    json::set_field(&mut v, "effect_id", json::number_json(effect_id));
    json::set_field(&mut v, "action", json::text_json(op.verb()));
    json::set_field(&mut v, "channel", json::text_json(op.channel()));
    match op {
        SlackOp::PostMessage { text, .. } => {
            let shown = redact_text(text.as_str());
            json::set_field(&mut v, "text_excerpt", json::text_json(shown.as_str()));
        },
        SlackOp::EditMessage { ts, text, .. } => {
            let shown = redact_text(text.as_str());
            json::set_field(&mut v, "ts", json::text_json(ts.as_str()));
            json::set_field(&mut v, "text_excerpt", json::text_json(shown.as_str()));
        },
        SlackOp::DeleteMessage { ts, .. } => {
            json::set_field(&mut v, "ts", json::text_json(ts.as_str()));
        },
    }
    v
}

impl<T> SlackAdapter<T> {
    /// What is shown of a described effect before it is authorised.
    pub fn describe_preview(descriptor: &EffectDescriptor) -> (r: Result<
        serde_json::Value,
        ReelError,
    >)
        ensures
            match described(descriptor.view()) {
                Some(a) => r matches Ok(v) && json::json_tree(v) == a.preview(
                    descriptor.view()->C_0,
                ),
                None => r matches Err(e) && e.is_storage(
                    decode_refusal(descriptor.view(), "preview"@),
                ),
            },
    {
        let op = match decode(descriptor, "preview") {
            Ok(o) => o,
            Err(e) => return Err(e),
        };
        match descriptor {
            EffectDescriptor::C { effect_id, .. } => Ok(preview_json(*effect_id, &op)),
            EffectDescriptor::A { effect_id, .. } => Ok(preview_json(*effect_id, &op)),
            EffectDescriptor::B { effect_id, .. } => Ok(preview_json(*effect_id, &op)),
        }
    }

    /// Checks that the capability permits the operation.
    pub fn check_capability(op: &SlackOp, capability: &Capability) -> (r: Result<(), SlackError>)
        ensures
            r is Ok <==> may_fire(op.view(), capability.view()),
            r matches Err(e) ==> e.is_denial(fire_refusal(op.view(), capability.view())),
    {
        if !capability.op_set.contains(&OpKind::FireC) {
            return Err(
                SlackError::CapabilityDenied(
                    String::from_str("I-003: op_set missing FireC; supplied set has ").concat(
                        decimal_string(capability.op_set.len() as u64).as_str(),
                    ).concat(" entries"),
                ),
            );
        }
        let target = String::from_str(SLACK_PATH_PREFIX_BASE).concat(op.channel());
        if !starts_with(target.as_str(), capability.path_prefix.as_str()) {
            return Err(
                SlackError::CapabilityDenied(
                    String::from_str("I-003: channel target '").concat(target.as_str()).concat(
                        "' is not covered by path_prefix '",
                    ).concat(capability.path_prefix.as_str()).concat("'"),
                ),
            );
        }
        if capability.ttl == 0 {
            return Err(
                SlackError::CapabilityDenied(
                    String::from_str("I-003: ttl is 0, which counts as expired"),
                ),
            );
        }
        Ok(())
    }

    /// Decides on the firing of a described effect: the operation that is to
    /// be sent, where the descriptor holds one and the capability permits it.
    pub fn prepare_fire(descriptor: &EffectDescriptor, capability: &Capability) -> (r: Result<
        SlackOp,
        ReelError,
    >)
        ensures
            match described(descriptor.view()) {
                Some(a) => if may_fire(a, capability.view()) {
                    r matches Ok(op) && op.view() == a
                } else {
                    r matches Err(e) && e.is_capability_violation(
                        fire_refusal(a, capability.view()),
                    )
                },
                None => r matches Err(e) && e.is_storage(
                    decode_refusal(descriptor.view(), "fire"@),
                ),
            },
    {
        let op = match decode(descriptor, "fire") {
            Ok(o) => o,
            Err(e) => return Err(e),
        };
        match Self::check_capability(&op, capability) {
            Ok(()) => Ok(op),
            Err(e) => Err(ReelError::from(e)),
        }
    }
}

/// What firing gives back for the answer of the transport.
pub fn settle_fire(answer: Result<TransportRecord, SlackError>) -> (r: Result<
    TransportRecord,
    ReelError,
>)
    ensures
        r == settled(answer),
{
    match answer {
        Ok(record) => Ok(record),
        Err(e) => Err(ReelError::from(e)),
    }
}

impl SlackAdapter<MockTransport> {
    /// Fires a described effect through the mock transport: nothing is sent
    /// unless the descriptor holds an operation and the capability permits it.
    pub fn fire(&mut self, descriptor: &EffectDescriptor, capability: &Capability) -> (r: Result<
        TransportRecord,
        ReelError,
    >)
        ensures
            final(self).next() == old(self).next(),
            match described(descriptor.view()) {
                Some(a) => if may_fire(a, capability.view()) {
                    let before = old(self).spec_transport();
                    let after = final(self).spec_transport();
                    &&& after.sent() == before.sent().push(a)
                    &&& after.fallback() == before.fallback()
                    &&& before.script().len() == 0 ==> after.script() == before.script() && (
                    r matches Ok(record) && record.view() == before.fallback())
                    &&& before.script().len() > 0 ==> after.script() == before.script().skip(1)
                        && r == settled(before.script()[0])
                } else {
                    &&& r matches Err(e) && e.is_capability_violation(
                        fire_refusal(a, capability.view()),
                    )
                    &&& final(self).spec_transport() == old(self).spec_transport()
                },
                None => {
                    &&& r matches Err(e) && e.is_storage(
                        decode_refusal(descriptor.view(), "fire"@),
                    )
                    &&& final(self).spec_transport() == old(self).spec_transport()
                },
            },
    {
        let op = match Self::prepare_fire(descriptor, capability) {
            Ok(o) => o,
            Err(e) => return Err(e),
        };
        settle_fire(self.transport.send(&op))
    }
}

/// What is described is read back: the JSON form of an operation describes
/// that operation.
pub proof fn law_described_operation_is_read_back(a: Action)
    ensures
        action_of(a.tree()) == Some(a),
{
    reveal_strlit("action");
    reveal_strlit("channel");
    reveal_strlit("text");
    reveal_strlit("ts");
    reveal_strlit("post_message");
    reveal_strlit("edit_message");
    reveal_strlit("delete_message");
    assert("action"@.len() != "channel"@.len());
    assert("text"@.len() != "ts"@.len());
    assert("post_message"@[0] != "edit_message"@[0]);
    assert("post_message"@[0] != "delete_message"@[0]);
    assert("edit_message"@[0] != "delete_message"@[0]);
}

/// A preview never shows more of a message than the limit and an ellipsis.
pub proof fn law_excerpt_is_bounded(t: Seq<char>)
    ensures
        excerpt(t).len() <= EXCERPT_CHARS + 1,
        t.len() <= EXCERPT_CHARS ==> excerpt(t) == t,
        t.len() > EXCERPT_CHARS ==> excerpt(t).take(EXCERPT_CHARS as int) == t.take(
            EXCERPT_CHARS as int,
        ) && excerpt(t).last() == '\u{2026}',
{
    if t.len() > EXCERPT_CHARS {
        assert(excerpt(t).take(EXCERPT_CHARS as int) =~= t.take(EXCERPT_CHARS as int));
    }
}

/// What a narrower authority may fire, the wider one may fire too, unless the
/// wider one has no lifetime set.
pub proof fn law_narrowing_fires_no_more(
    wide: capability::Authority,
    narrow: capability::Authority,
    a: Action,
)
    requires
        wide.covers(narrow),
        may_fire(a, narrow),
        wide.ttl != 0,
    ensures
        may_fire(a, wide),
{
    text::lemma_prefix_transitive(channel_target(a.channel()), narrow.path_prefix, wide.path_prefix);
}

/// Whether an authority permits an operation depends on the channel alone. To
/// fire irreversible effects is both needed and, with a prefix that covers the
/// channel and a lifetime that is set, enough: for a post, and for an edit or
/// a deletion in the same channel just as well.
pub proof fn law_permission_depends_on_the_channel(
    channel: Seq<char>,
    ts: Seq<char>,
    text: Seq<char>,
    cap: capability::Authority,
)
    ensures
        may_fire(Action::Post(channel, text), cap) <==> {
            &&& cap.op_set.view().contains(OpKind::FireC)
            &&& cap.path_prefix.len() <= ("slack:channel:"@ + channel).len()
            &&& ("slack:channel:"@ + channel).take(cap.path_prefix.len() as int) == cap.path_prefix
            &&& cap.ttl > 0
        },
        may_fire(Action::Edit(channel, ts, text), cap) == may_fire(
            Action::Post(channel, text),
            cap,
        ),
        may_fire(Action::Delete(channel, ts), cap) == may_fire(Action::Post(channel, text), cap),
        fire_refusal(Action::Edit(channel, ts, text), cap) == fire_refusal(
            Action::Post(channel, text),
            cap,
        ),
        fire_refusal(Action::Delete(channel, ts), cap) == fire_refusal(
            Action::Post(channel, text),
            cap,
        ),
{
}

/// A preview shows a message of up to eighty characters as it is, and of a
/// longer one the first eighty and an ellipsis.
pub proof fn law_preview_cuts_after_eighty_characters(t: Seq<char>, more: Seq<char>)
    ensures
        t.len() <= 80 ==> excerpt(t) == t,
        t.len() == 80 && more.len() > 0 ==> excerpt(t + more) == t.push('\u{2026}'),
{
    if t.len() == 80 {
        assert((t + more).take(80) =~= t);
    }
}

/// A preview says which operation it is, in which channel, on which message,
/// with an excerpt of the text, and nothing else.
pub proof fn law_preview_shows_the_operation(
    channel: Seq<char>,
    ts: Seq<char>,
    text: Seq<char>,
    id: u64,
)
    ensures
        Action::Post(channel, text).preview(id) == json::JsonTree::Object(
            map!["effect_id"@ => json::JsonTree::Unsigned(id),
                "action"@ => json::JsonTree::Text("post_message"@),
                "channel"@ => json::JsonTree::Text(channel),
                "text_excerpt"@ => json::JsonTree::Text(excerpt(text))],
        ),
        Action::Edit(channel, ts, text).preview(id) == json::JsonTree::Object(
            map!["effect_id"@ => json::JsonTree::Unsigned(id),
                "action"@ => json::JsonTree::Text("edit_message"@),
                "channel"@ => json::JsonTree::Text(channel),
                "ts"@ => json::JsonTree::Text(ts),
                "text_excerpt"@ => json::JsonTree::Text(excerpt(text))],
        ),
        Action::Delete(channel, ts).preview(id) == json::JsonTree::Object(
            map!["effect_id"@ => json::JsonTree::Unsigned(id),
                "action"@ => json::JsonTree::Text("delete_message"@),
                "channel"@ => json::JsonTree::Text(channel),
                "ts"@ => json::JsonTree::Text(ts)],
        ),
{
}

/// The JSON form of an operation names it and gives each of its parts in full.
pub proof fn law_json_form_gives_every_part(channel: Seq<char>, ts: Seq<char>, text: Seq<char>)
    ensures
        Action::Post(channel, text).tree() == json::JsonTree::Object(
            map!["action"@ => json::JsonTree::Text("post_message"@),
                "channel"@ => json::JsonTree::Text(channel),
                "text"@ => json::JsonTree::Text(text)],
        ),
        Action::Edit(channel, ts, text).tree() == json::JsonTree::Object(
            map!["action"@ => json::JsonTree::Text("edit_message"@),
                "channel"@ => json::JsonTree::Text(channel),
                "ts"@ => json::JsonTree::Text(ts),
                "text"@ => json::JsonTree::Text(text)],
        ),
        Action::Delete(channel, ts).tree() == json::JsonTree::Object(
            map!["action"@ => json::JsonTree::Text("delete_message"@),
                "channel"@ => json::JsonTree::Text(channel),
                "ts"@ => json::JsonTree::Text(ts)],
        ),
{
}

/// An object describes an operation exactly where it has a text for the name of
/// the operation and for each of its parts, whatever else it has.
pub proof fn law_object_describes_what_its_fields_say(
    fields: Map<Seq<char>, json::JsonTree>,
    channel: Seq<char>,
    ts: Seq<char>,
    text: Seq<char>,
)
    ensures
        ({
            let is = |key: Seq<char>, value: Seq<char>|
                fields.dom().contains(key) && fields[key] == json::JsonTree::Text(value);
            let found = action_of(json::JsonTree::Object(fields));
            &&& found == Some(Action::Post(channel, text)) <==> is("action"@, "post_message"@)
                && is("channel"@, channel) && is("text"@, text)
            &&& found == Some(Action::Edit(channel, ts, text)) <==> is("action"@, "edit_message"@)
                && is("channel"@, channel) && is("ts"@, ts) && is("text"@, text)
            &&& found == Some(Action::Delete(channel, ts)) <==> is("action"@, "delete_message"@)
                && is("channel"@, channel) && is("ts"@, ts)
        }),
{
    reveal_strlit("post_message");
    reveal_strlit("edit_message");
    reveal_strlit("delete_message");
    assert("post_message"@[0] == 'p' && "edit_message"@[0] == 'e' && "delete_message"@[0] == 'd');
}

/// A list describes an operation exactly where it is the name of the operation
/// and its parts, in order and nothing else.
pub proof fn law_list_describes_what_its_items_say(
    items: Seq<json::JsonTree>,
    channel: Seq<char>,
    ts: Seq<char>,
    text: Seq<char>,
)
    ensures
        action_of(json::JsonTree::List(items)) == Some(Action::Post(channel, text)) <==> items
            == seq![
            json::JsonTree::Text("post_message"@),
            json::JsonTree::Text(channel),
            json::JsonTree::Text(text),
        ],
        action_of(json::JsonTree::List(items)) == Some(Action::Edit(channel, ts, text)) <==> items
            == seq![
            json::JsonTree::Text("edit_message"@),
            json::JsonTree::Text(channel),
            json::JsonTree::Text(ts),
            json::JsonTree::Text(text),
        ],
        action_of(json::JsonTree::List(items)) == Some(Action::Delete(channel, ts)) <==> items
            == seq![
            json::JsonTree::Text("delete_message"@),
            json::JsonTree::Text(channel),
            json::JsonTree::Text(ts),
        ],
{
    reveal_strlit("post_message");
    reveal_strlit("edit_message");
    reveal_strlit("delete_message");
    assert("post_message"@[0] == 'p' && "edit_message"@[0] == 'e' && "delete_message"@[0] == 'd');
    let post = seq![
        json::JsonTree::Text("post_message"@),
        json::JsonTree::Text(channel),
        json::JsonTree::Text(text),
    ];
    let edit = seq![
        json::JsonTree::Text("edit_message"@),
        json::JsonTree::Text(channel),
        json::JsonTree::Text(ts),
        json::JsonTree::Text(text),
    ];
    let delete = seq![
        json::JsonTree::Text("delete_message"@),
        json::JsonTree::Text(channel),
        json::JsonTree::Text(ts),
    ];
    let found = action_of(json::JsonTree::List(items));
    if found == Some(Action::Post(channel, text)) {
        assert(items =~= post);
    }
    if found == Some(Action::Edit(channel, ts, text)) {
        assert(items =~= edit);
    }
    if found == Some(Action::Delete(channel, ts)) {
        assert(items =~= delete);
    }
}

/// Only an irreversible effect can be an operation, and its number plays no
/// part in which one it is.
pub proof fn law_only_irreversible_effects_are_operations(
    op: json::JsonTree,
    version: effect::Version,
    m: u64,
    n: u64,
)
    ensures
        described(effect::Descriptor::A(n, op)) is None,
        described(effect::Descriptor::B(n, version, op)) is None,
        described(effect::Descriptor::C(m, op)) == described(effect::Descriptor::C(n, op)),
        described(effect::Descriptor::C(n, op)) == action_of(op),
{
}

/// Effects are numbered one after the other; behind the largest number the
/// smallest follows.
pub proof fn law_effects_are_numbered_in_turn(n: u64)
    ensures
        n < u64::MAX ==> following(n) == n + 1,
        following(u64::MAX) == 0,
{
}

/// An answer of the transport is passed on: a success as it is, a denial as a
/// violation, a timeout as a timeout of the drain, and any other failure as a
/// storage failure, each with its text.
pub proof fn law_answers_are_passed_on(answer: Result<TransportRecord, SlackError>)
    ensures
        answer matches Ok(record) ==> settled(answer) == Ok::<TransportRecord, ReelError>(record),
        answer matches Err(e) ==> (settled(answer) matches Err(p) && match e {
            SlackError::CapabilityDenied(m) => p == ReelError::CapabilityViolation(m),
            SlackError::Timeout => p == ReelError::EffectDrainTimeout,
            SlackError::Api(m) => p == ReelError::Storage(m),
            SlackError::Codec(m) => p == ReelError::Storage(m),
        }),
{
}

/// What an operation holds is each of its parts, and a record its timestamp and
/// its diagnostic.
pub proof fn law_operation_holds_every_part(op: SlackOp, record: TransportRecord)
    ensures
        op.view() == (match op {
            SlackOp::PostMessage { channel, text } => Action::Post(channel@, text@),
            SlackOp::EditMessage { channel, ts, text } => Action::Edit(channel@, ts@, text@),
            SlackOp::DeleteMessage { channel, ts } => Action::Delete(channel@, ts@),
        }),
        record.view().ts == record.message_ts@,
        record.view().diagnostic == json::json_tree(record.diagnostic),
{
}

/// A list of operations holds each of them, in order.
pub proof fn law_operations_are_held_in_order(ops: Seq<SlackOp>, i: int)
    ensures
        actions_of(ops).len() == ops.len(),
        0 <= i < ops.len() ==> actions_of(ops)[i] == ops[i].view(),
{
}

/// A denial is the error of that kind with that text.
pub proof fn law_denials_are_denials(e: SlackError, t: Seq<char>)
    ensures
        e.is_denial(t) <==> (e matches SlackError::CapabilityDenied(m) && m@ == t),
{
}

/// Without permission to fire, nothing of any kind is permitted; a longer
/// prefix, fewer operations or no lifetime never permit more.
pub proof fn law_nothing_fires_without_permission(a: Action, cap: capability::Authority)
    ensures
        !cap.op_set.view().contains(OpKind::FireC) ==> !may_fire(a, cap),
        cap.ttl == 0 ==> !may_fire(a, cap),
        cap.op_set.view().contains(OpKind::FireC) && cap.path_prefix.len() == 0 && cap.ttl > 0
            ==> may_fire(a, cap),
{
    assert(channel_target(a.channel()).subrange(0, 0) =~= Seq::empty());
    if cap.path_prefix.len() == 0 {
        assert(cap.path_prefix =~= Seq::empty());
    }
}

} // verus!
