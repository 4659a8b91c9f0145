//! The local telemetry server: what to ask it, and what its answers say.

use vstd::prelude::*;
use vstd::string::*;
use vstd::utf8::*;
use crate::json;
use crate::json::{Json, JsonView};
use crate::text;

verus! {

#[derive(Clone, Copy, Debug, PartialEq, Eq, Structural)]
pub enum Endpoint {
    State,
    Indicators,
    HudMsg,
    GameChat,
    MapInfo,
    MapObj,
}

/// How a request to an endpoint went.
#[derive(Debug)]
pub enum EndpointProbe {
    Reached { endpoint: Endpoint, summary: Option<String> },
    Failed { endpoint: Endpoint, error: String },
}

#[derive(Debug, PartialEq, Eq)]
pub struct ChatMessage {
    pub id: Option<u64>,
    pub time: Option<String>,
    pub sender: Option<String>,
    pub text: String,
}

/// A message with its texts as sequences of characters.
pub ghost struct ChatView {
    pub id: Option<u64>,
    pub time: Option<Seq<char>>,
    pub sender: Option<Seq<char>>,
    pub text: Seq<char>,
}

impl View for ChatMessage {
    type V = ChatView;

    open spec fn view(&self) -> ChatView {
        ChatView {
            id: self.id,
            time: text::opt_text(self.time),
            sender: text::opt_text(self.sender),
            text: self.text@,
        }
    }
}

pub open spec fn chats(s: Seq<ChatMessage>) -> Seq<ChatView> {
    s.map_values(|m: ChatMessage| m@)
}

/// New chat messages, and the number of the last one for the next request.
#[derive(Debug)]
pub struct ChatPoll {
    pub messages: Vec<ChatMessage>,
    pub next_last_id: u64,
}

/// New lines of the display's log, and the numbers for the next request.
#[derive(Debug)]
pub struct HudPoll {
    pub events: Vec<ChatMessage>,
    pub damage: Vec<ChatMessage>,
    pub next_last_evt_id: u64,
    pub next_last_dmg_id: u64,
}

impl ChatView {
    /// What tells a message from the others of its source: its number, or its
    /// content where it has none.
    pub open spec fn stable_key(self, prefix: Seq<char>) -> Seq<char> {
        match (self.id, self.time, self.sender) {
            (Some(id), _, _) => prefix + ":"@ + text::decimal(id as nat),
            (None, Some(time), Some(sender)) => prefix + ":"@ + time + "|"@ + sender + "|"@
                + self.text,
            (None, Some(time), None) => prefix + ":"@ + time + "|"@ + self.text,
            (None, None, Some(sender)) => prefix + ":"@ + sender + "|"@ + self.text,
            (None, None, None) => prefix + ":"@ + self.text,
        }
    }
}

impl ChatMessage {
    pub fn stable_key_with_prefix(&self, prefix: &str) -> (r: String)
        ensures
            r@ == self@.stable_key(prefix@),
    {
        let mut r: String = text::join2(prefix, ":");
        if let Some(id) = self.id {
            r.append(text::decimal_text(id as u128).as_str());
            return r;
        }
        if let Some(time) = &self.time {
            r.append(time.as_str());
            r.append("|");
        }
        if let Some(sender) = &self.sender {
            r.append(sender.as_str());
            r.append("|");
        }
        r.append(self.text.as_str());
        r
    }
}

/// Messages with numbers differ in their keys where they differ in their
/// numbers.
pub proof fn lemma_numbered_keys_differ(a: ChatView, b: ChatView, prefix: Seq<char>)
    requires
        a.id is Some,
        b.id is Some,
        a.stable_key(prefix) == b.stable_key(prefix),
    ensures
        a.id == b.id,
{
    let x = text::decimal(a.id->0 as nat);
    let y = text::decimal(b.id->0 as nat);
    let head = prefix + ":"@;
    assert((head + x).subrange(head.len() as int, (head + x).len() as int) == x);
    assert((head + y).subrange(head.len() as int, (head + y).len() as int) == y);
    text::lemma_decimal_injective(a.id->0 as nat, b.id->0 as nat);
}

impl Endpoint {
    pub open spec fn path_text(self) -> Seq<char> {
        match self {
            Endpoint::State => "/state"@,
            Endpoint::Indicators => "/indicators"@,
            Endpoint::HudMsg => "/hudmsg"@,
            Endpoint::GameChat => "/gamechat"@,
            Endpoint::MapInfo => "/map_info.json"@,
            Endpoint::MapObj => "/map_obj.json"@,
        }
    }

    pub fn path(self) -> (r: &'static str)
        ensures
            r@ == self.path_text(),
    {
        match self {
            Endpoint::State => "/state",
            Endpoint::Indicators => "/indicators",
            Endpoint::HudMsg => "/hudmsg",
            Endpoint::GameChat => "/gamechat",
            Endpoint::MapInfo => "/map_info.json",
            Endpoint::MapObj => "/map_obj.json",
        }
    }

    pub fn default_request_path(self) -> (r: &'static str)
        ensures
            r@ == match self {
                Endpoint::HudMsg => "/hudmsg?lastEvt=0&lastDmg=0"@,
                Endpoint::GameChat => "/gamechat?lastId=0"@,
                _ => self.path_text(),
            },
    {
        match self {
            Endpoint::HudMsg => "/hudmsg?lastEvt=0&lastDmg=0",
            Endpoint::GameChat => "/gamechat?lastId=0",
            _ => self.path(),
        }
    }

    pub fn all() -> (r: [Endpoint; 6])
        ensures
            r@ == seq![
                Endpoint::State,
                Endpoint::Indicators,
                Endpoint::HudMsg,
                Endpoint::GameChat,
                Endpoint::MapInfo,
                Endpoint::MapObj,
            ],
    {
        let r = [
            Endpoint::State,
            Endpoint::Indicators,
            Endpoint::HudMsg,
            Endpoint::GameChat,
            Endpoint::MapInfo,
            Endpoint::MapObj,
        ];
        assert(r@ =~= seq![
            Endpoint::State,
            Endpoint::Indicators,
            Endpoint::HudMsg,
            Endpoint::GameChat,
            Endpoint::MapInfo,
            Endpoint::MapObj,
        ]);
        r
    }
}

impl EndpointProbe {
    pub fn is_ok(&self) -> (r: bool)
        ensures
            r == (self is Reached),
    {
        match self {
            EndpointProbe::Reached { .. } => true,
            EndpointProbe::Failed { .. } => false,
        }
    }
}

pub open spec fn gamechat_request(last_id: u64) -> Seq<char> {
    "/gamechat?lastId="@ + text::decimal(last_id as nat)
}

/// What to ask for the chat messages behind `last_id`.
pub fn gamechat_path(last_id: u64) -> (r: String)
    ensures
        r@ == gamechat_request(last_id),
{
    text::join2("/gamechat?lastId=", text::decimal_text(last_id as u128).as_str())
}

pub open spec fn hudmsg_request(last_evt_id: u64, last_dmg_id: u64) -> Seq<char> {
    "/hudmsg?lastEvt="@ + text::decimal(last_evt_id as nat) + "&lastDmg="@ + text::decimal(
        last_dmg_id as nat,
    )
}

/// What to ask for the lines of the display's log behind the two numbers.
pub fn hudmsg_path(last_evt_id: u64, last_dmg_id: u64) -> (r: String)
    ensures
        r@ == hudmsg_request(last_evt_id, last_dmg_id),
{
    let mut r: String = "/hudmsg?lastEvt=".to_owned();
    r.append(text::decimal_text(last_evt_id as u128).as_str());
    r.append("&lastDmg=");
    r.append(text::decimal_text(last_dmg_id as u128).as_str());
    r
}

/// The number in a value: itself, or what its text says.
pub open spec fn number_in(value: JsonView) -> Option<u64> {
    match value.unsigned_value() {
        Some(n) => Some(n),
        None => match value.text() {
            Some(t) => match text::parse_unsigned(t, u64::MAX as nat) {
                Some(n) => Some(n as u64),
                None => None,
            },
            None => None,
        },
    }
}

fn value_as_u64(value: &Json) -> (r: Option<u64>)
    ensures
        r == number_in(value.viewed()),
{
    match value.as_u64() {
        Some(n) => Some(n),
        None => match value.as_str() {
            Some(t) => text::parse_u64(t),
            None => None,
        },
    }
}

/// The first of the keys that holds a number, and the number.
pub open spec fn first_number(
    entries: Seq<(Seq<char>, JsonView)>,
    keys: Seq<Seq<char>>,
) -> Option<u64>
    decreases keys.len(),
{
    if keys.len() == 0 {
        None
    } else {
        let found = match json::field_of(entries, keys[0]) {
            Some(value) => number_in(value),
            None => None,
        };
        if found is Some {
            found
        } else {
            first_number(entries, keys.drop_first())
        }
    }
}

fn first_u64(entries: &Vec<(String, Json)>, keys: &[&str]) -> (r: Option<u64>)
    ensures
        r == first_number(json::entries_view(entries@), text::strs(keys@)),
{
    let ghost all = text::strs(keys@);
    let mut i: usize = 0;
    assert(all.subrange(0, all.len() as int) == all);
    while i < keys.len()
        invariant
            i <= keys.len(),
            all == text::strs(keys@),
            first_number(json::entries_view(entries@), all) == first_number(
                json::entries_view(entries@),
                all.subrange(i as int, all.len() as int),
            ),
        decreases keys.len() - i,
    {
        let ghost rest = all.subrange(i as int, all.len() as int);
        assert(rest.drop_first() == all.subrange(i + 1, all.len() as int));
        assert(rest[0] == keys@[i as int]@);
        if let Some(value) = json::field(entries, keys[i]) {
            if let Some(n) = value_as_u64(value) {
                return Some(n);
            }
        }
        i = i + 1;
    }
    None
}

/// The text under the first of the keys that holds one.
pub open spec fn first_text(
    entries: Seq<(Seq<char>, JsonView)>,
    keys: Seq<Seq<char>>,
) -> Option<Seq<char>>
    decreases keys.len(),
{
    if keys.len() == 0 {
        None
    } else {
        let found = match json::field_of(entries, keys[0]) {
            Some(value) => value.text(),
            None => None,
        };
        if found is Some {
            found
        } else {
            first_text(entries, keys.drop_first())
        }
    }
}

/// A text without the white space around it, where anything is left.
pub open spec fn trimmed(t: Option<Seq<char>>) -> Option<Seq<char>> {
    match t {
        Some(t) => if text::trim_of(t).len() > 0 {
            Some(text::trim_of(t))
        } else {
            None
        },
        None => None,
    }
}

fn first_string(entries: &Vec<(String, Json)>, keys: &[&str]) -> (r: Option<String>)
    ensures
        text::opt_text(r) == trimmed(
            first_text(json::entries_view(entries@), text::strs(keys@)),
        ),
{
    let ghost all = text::strs(keys@);
    let mut i: usize = 0;
    assert(all.subrange(0, all.len() as int) == all);
    while i < keys.len()
        invariant
            i <= keys.len(),
            all == text::strs(keys@),
            first_text(json::entries_view(entries@), all) == first_text(
                json::entries_view(entries@),
                all.subrange(i as int, all.len() as int),
            ),
        decreases keys.len() - i,
    {
        let ghost rest = all.subrange(i as int, all.len() as int);
        assert(rest.drop_first() == all.subrange(i + 1, all.len() as int));
        assert(rest[0] == keys@[i as int]@);
        if let Some(value) = json::field(entries, keys[i]) {
            if let Some(t) = value.as_str() {
                let t = text::trim(t);
                return if t.is_empty() {
                    None
                } else {
                    Some(t.to_owned())
                };
            }
        }
        i = i + 1;
    }
    None
}

/// A value as a text: a text that is not blank, trimmed; a number; a truth
/// value.
pub open spec fn scalar_text(value: JsonView) -> Option<Seq<char>> {
    match value {
        JsonView::Text(t) => trimmed(Some(t)),
        JsonView::Number { shown, .. } => Some(shown),
        JsonView::Bool(b) => Some(
            if b {
                "true"@
            } else {
                "false"@
            },
        ),
        _ => None,
    }
}

fn scalar_string(value: &Json) -> (r: Option<String>)
    ensures
        text::opt_text(r) == scalar_text(value.viewed()),
{
    match value {
        Json::Text(t) => {
            let t = text::trim(t.as_str());
            if t.is_empty() {
                None
            } else {
                Some(t.to_owned())
            }
        },
        Json::Number { shown, .. } => Some(shown.clone()),
        Json::Bool(b) => Some(
            if *b {
                "true".to_owned()
            } else {
                "false".to_owned()
            },
        ),
        _ => None,
    }
}

/// The first of the keys that holds something with a text, and the text.
pub open spec fn first_scalar(
    entries: Seq<(Seq<char>, JsonView)>,
    keys: Seq<Seq<char>>,
) -> Option<Seq<char>>
    decreases keys.len(),
{
    if keys.len() == 0 {
        None
    } else {
        let found = match json::field_of(entries, keys[0]) {
            Some(value) => scalar_text(value),
            None => None,
        };
        if found is Some {
            found
        } else {
            first_scalar(entries, keys.drop_first())
        }
    }
}

fn first_scalar_string(entries: &Vec<(String, Json)>, keys: &[&str]) -> (r: Option<String>)
    ensures
        text::opt_text(r) == first_scalar(json::entries_view(entries@), text::strs(keys@)),
{
    let ghost all = text::strs(keys@);
    let mut i: usize = 0;
    assert(all.subrange(0, all.len() as int) == all);
    while i < keys.len()
        invariant
            i <= keys.len(),
            all == text::strs(keys@),
            first_scalar(json::entries_view(entries@), all) == first_scalar(
                json::entries_view(entries@),
                all.subrange(i as int, all.len() as int),
            ),
        decreases keys.len() - i,
    {
        let ghost rest = all.subrange(i as int, all.len() as int);
        assert(rest.drop_first() == all.subrange(i + 1, all.len() as int));
        assert(rest[0] == keys@[i as int]@);
        if let Some(value) = json::field(entries, keys[i]) {
            let found = scalar_string(value);
            if found.is_some() {
                return found;
            }
        }
        i = i + 1;
    }
    None
}

/// The texts under the keys that are not blank, in the order of the keys.
pub open spec fn texts_under(
    entries: Seq<(Seq<char>, JsonView)>,
    keys: Seq<Seq<char>>,
) -> Seq<Seq<char>>
    decreases keys.len(),
{
    if keys.len() == 0 {
        seq![]
    } else {
        let before = texts_under(entries, keys.drop_last());
        match json::field_of(entries, keys.last()) {
            Some(JsonView::Text(t)) => if text::trim_of(t).len() > 0 {
                before.push(t)
            } else {
                before
            },
            _ => before,
        }
    }
}

fn strings_under(entries: &Vec<(String, Json)>, keys: &[&str]) -> (r: Vec<String>)
    ensures
        text::texts(r@) == texts_under(json::entries_view(entries@), text::strs(keys@)),
{
    let ghost all = text::strs(keys@);
    let mut r: Vec<String> = Vec::new();
    let mut i: usize = 0;
    assert(text::texts(r@) =~= Seq::<Seq<char>>::empty());
    while i < keys.len()
        invariant
            i <= keys.len(),
            all == text::strs(keys@),
            text::texts(r@) == texts_under(
                json::entries_view(entries@),
                all.subrange(0, i as int),
            ),
        decreases keys.len() - i,
    {
        let ghost next = all.subrange(0, i + 1);
        assert(next.drop_last() == all.subrange(0, i as int));
        assert(next.last() == keys@[i as int]@);
        let ghost before = text::texts(r@);
        if let Some(value) = json::field(entries, keys[i]) {
            if let Some(t) = value.as_str() {
                if !text::trim(t).is_empty() {
                    let t: String = t.to_owned();
                    r.push(t);
                    assert(text::texts(r@) =~= before.push(t@));
                }
            }
        }
        i = i + 1;
    }
    assert(all.subrange(0, all.len() as int) == all);
    r
}

pub open spec fn id_keys() -> Seq<Seq<char>> {
    seq!["id"@, "lastId"@, "msgId"@, "msg_id"@]
}

pub open spec fn time_keys() -> Seq<Seq<char>> {
    seq!["time"@, "timestamp"@, "t"@]
}

pub open spec fn sender_keys() -> Seq<Seq<char>> {
    seq!["sender"@, "player"@, "from"@, "name"@]
}

pub open spec fn text_keys() -> Seq<Seq<char>> {
    seq!["msg"@, "message"@, "text"@]
}

/// An object as a message, where it holds a text.
pub open spec fn chat_from_entries(entries: Seq<(Seq<char>, JsonView)>) -> Option<ChatView> {
    let said = text::joined(texts_under(entries, text_keys()), " "@);
    if said.len() == 0 {
        None
    } else {
        Some(
            ChatView {
                id: first_number(entries, id_keys()),
                time: first_scalar(entries, time_keys()),
                sender: trimmed(first_text(entries, sender_keys())),
                text: said,
            },
        )
    }
}

fn chat_message_from_object(entries: &Vec<(String, Json)>) -> (r: Option<ChatMessage>)
    ensures
        match r {
            Some(m) => chat_from_entries(json::entries_view(entries@)) == Some(m@),
            None => chat_from_entries(json::entries_view(entries@)) is None,
        },
{
    let ids: [&str; 4] = ["id", "lastId", "msgId", "msg_id"];
    let times: [&str; 3] = ["time", "timestamp", "t"];
    let senders: [&str; 4] = ["sender", "player", "from", "name"];
    let says: [&str; 3] = ["msg", "message", "text"];
    proof {
        assert(text::strs(ids@) =~= id_keys());
        assert(text::strs(times@) =~= time_keys());
        assert(text::strs(senders@) =~= sender_keys());
        assert(text::strs(says@) =~= text_keys());
    }
    let id: Option<u64> = first_u64(entries, ids.as_slice());
    let time = first_scalar_string(entries, times.as_slice());
    let sender = first_string(entries, senders.as_slice());
    let said = text::join(&strings_under(entries, says.as_slice()), " ");
    if said.as_str().is_empty() {
        None
    } else {
        Some(ChatMessage { id, time, sender, text: said })
    }
}

/// The first number among the items.
pub open spec fn first_item_number(items: Seq<JsonView>) -> Option<u64>
    decreases items.len(),
{
    if items.len() == 0 {
        None
    } else if number_in(items[0]) is Some {
        number_in(items[0])
    } else {
        first_item_number(items.drop_first())
    }
}

/// The texts among the items that are not blank.
pub open spec fn item_texts(items: Seq<JsonView>) -> Seq<Seq<char>>
    decreases items.len(),
{
    if items.len() == 0 {
        seq![]
    } else {
        let before = item_texts(items.drop_last());
        match items.last() {
            JsonView::Text(t) => if text::trim_of(t).len() > 0 {
                before.push(t)
            } else {
                before
            },
            _ => before,
        }
    }
}

/// Two rows of digits with a colon between them.
pub open spec fn clock_shaped(value: Seq<char>) -> bool {
    let parts = text::split_of(value, ':');
    parts.len() == 2 && parts[0].len() > 0 && parts[1].len() > 0 && text::all_digits(parts[0])
        && text::all_digits(parts[1])
}

fn is_all_digits(s: &str) -> (r: bool)
    ensures
        r == text::all_digits(s@),
{
    let v = text::chars_of(s);
    let mut i: usize = 0;
    while i < v.len()
        invariant
            i <= v.len(),
            v@ == s@,
            forall|j: int| 0 <= j < i ==> text::is_digit(#[trigger] s@[j]),
        decreases v.len() - i,
    {
        if v[i] < '0' || v[i] > '9' {
            assert(!text::is_digit(s@[i as int]));
            return false;
        }
        i = i + 1;
    }
    true
}

pub fn looks_like_time(value: &str) -> (r: bool)
    ensures
        r == clock_shaped(value@),
{
    let parts = text::split(value, ':');
    if parts.len() != 2 {
        return false;
    }
    assert(text::texts(parts@)[0] == parts@[0]@);
    assert(text::texts(parts@)[1] == parts@[1]@);
    let left = parts[0].as_str();
    let right = parts[1].as_str();
    !left.is_empty() && !right.is_empty() && is_all_digits(left) && is_all_digits(right)
}

/// An array as a message, where it holds a text.
pub open spec fn chat_from_items(items: Seq<JsonView>) -> Option<ChatView> {
    let strings = item_texts(items);
    let said = text::joined(strings, " "@);
    if said.len() == 0 {
        None
    } else {
        Some(
            ChatView {
                id: first_item_number(items),
                time: if strings.len() > 0 && clock_shaped(strings[0]) {
                    Some(strings[0])
                } else {
                    None
                },
                sender: None,
                text: said,
            },
        )
    }
}

fn chat_message_from_array(items: &Vec<Json>) -> (r: Option<ChatMessage>)
    ensures
        match r {
            Some(m) => chat_from_items(json::items_view(items@)) == Some(m@),
            None => chat_from_items(json::items_view(items@)) is None,
        },
{
    let ghost all = json::items_view(items@);
    let mut strings: Vec<String> = Vec::new();
    let mut i: usize = 0;
    assert(text::texts(strings@) =~= Seq::<Seq<char>>::empty());
    while i < items.len()
        invariant
            i <= items.len(),
            all == json::items_view(items@),
            text::texts(strings@) == item_texts(all.subrange(0, i as int)),
        decreases items.len() - i,
    {
        let ghost next = all.subrange(0, i + 1);
        assert(next.drop_last() == all.subrange(0, i as int));
        assert(next.last() == items@[i as int].viewed());
        let ghost before = text::texts(strings@);
        if let Some(t) = items[i].as_str() {
            if !text::trim(t).is_empty() {
                let t: String = t.to_owned();
                strings.push(t);
                assert(text::texts(strings@) =~= before.push(t@));
            }
        }
        i = i + 1;
    }
    assert(all.subrange(0, all.len() as int) == all);
    let said = text::join(&strings, " ");
    if said.as_str().is_empty() {
        return None;
    }
    let mut id: Option<u64> = None;
    let mut k: usize = 0;
    while k < items.len() && id.is_none()
        invariant
            k <= items.len(),
            all == json::items_view(items@),
            all.subrange(0, all.len() as int) == all,
            match id {
                Some(n) => first_item_number(all) == Some(n),
                None => first_item_number(all) == first_item_number(
                    all.subrange(k as int, all.len() as int),
                ),
            },
        decreases items.len() - k,
    {
        let ghost rest = all.subrange(k as int, all.len() as int);
        assert(rest.drop_first() == all.subrange(k + 1, all.len() as int));
        assert(rest[0] == items@[k as int].viewed());
        id = value_as_u64(&items[k]);
        k = k + 1;
    }
    let time: Option<String> = if strings.len() > 0 && looks_like_time(strings[0].as_str()) {
        assert(text::texts(strings@)[0] == strings@[0]@);
        Some(strings[0].clone())
    } else {
        proof {
            if strings@.len() > 0 {
                assert(text::texts(strings@)[0] == strings@[0]@);
            }
        }
        None
    };
    Some(ChatMessage { id, time, sender: None, text: said })
}

/// A text as a message, where it is not blank.
pub open spec fn chat_from_text(t: Seq<char>) -> Seq<ChatView> {
    if text::trim_of(t).len() == 0 {
        seq![]
    } else {
        seq![ChatView { id: None, time: None, sender: None, text: text::trim_of(t) }]
    }
}

/// The messages anywhere in a value, in the order in which they stand there.
pub open spec fn chats_in(value: JsonView) -> Seq<ChatView>
    decreases value,
{
    match value {
        JsonView::Text(t) => chat_from_text(t),
        JsonView::Array { items, .. } => match chat_from_items(items) {
            Some(m) => seq![m],
            None => chats_in_all(items),
        },
        JsonView::Object { entries, .. } => match chat_from_entries(entries) {
            Some(m) => seq![m],
            None => chats_in_entries(entries),
        },
        _ => seq![],
    }
}

pub open spec fn chats_in_all(items: Seq<JsonView>) -> Seq<ChatView>
    decreases items,
{
    if items.len() == 0 {
        seq![]
    } else {
        chats_in_all(items.drop_last()) + chats_in(items[items.len() - 1])
    }
}

pub open spec fn chats_in_entries(entries: Seq<(Seq<char>, JsonView)>) -> Seq<ChatView>
    decreases entries,
{
    if entries.len() == 0 {
        seq![]
    } else {
        chats_in_entries(entries.drop_last()) + chats_in(entries[entries.len() - 1].1)
    }
}

fn collect_chat_messages(value: &Json, messages: &mut Vec<ChatMessage>)
    ensures
        chats(final(messages)@) == chats(old(messages)@) + chats_in(value.viewed()),
    decreases *value,
{
    proof {
        json::lemma_viewed(*value);
    }
    let ghost start = chats(messages@);
    match value {
        Json::Text(t) => {
            let t = text::trim(t.as_str());
            if !t.is_empty() {
                let m = ChatMessage { id: None, time: None, sender: None, text: t.to_owned() };
                messages.push(m);
                assert(chats(messages@) =~= start + seq![m@]);
            } else {
                assert(start + Seq::<ChatView>::empty() =~= start);
            }
        },
        Json::Array { items, .. } => {
            match chat_message_from_array(items) {
                Some(m) => {
                    messages.push(m);
                    assert(chats(messages@) =~= start + seq![m@]);
                },
                None => {
                    let ghost all = json::items_view(items@);
                    let mut i: usize = 0;
                    assert(start + Seq::<ChatView>::empty() =~= start);
                    while i < items.len()
                        invariant
                            i <= items.len(),
                            all == json::items_view(items@),
                            *value matches Json::Array { items: inner, .. } && inner == *items,
                            chats(messages@) == start + chats_in_all(all.subrange(0, i as int)),
                        decreases items.len() - i,
                    {
                        let ghost next = all.subrange(0, i + 1);
                        assert(next.drop_last() == all.subrange(0, i as int));
                        assert(next[i as int] == items@[i as int].viewed());
                        collect_chat_messages(&items[i], messages);
                        assert(start + chats_in_all(next.drop_last()) + chats_in(next[i as int])
                            =~= start + (chats_in_all(next.drop_last()) + chats_in(
                            next[i as int],
                        )));
                        i = i + 1;
                    }
                    assert(all.subrange(0, all.len() as int) == all);
                },
            }
        },
        Json::Object { entries, .. } => {
            match chat_message_from_object(entries) {
                Some(m) => {
                    messages.push(m);
                    assert(chats(messages@) =~= start + seq![m@]);
                },
                None => {
                    let ghost all = json::entries_view(entries@);
                    let mut i: usize = 0;
                    assert(start + Seq::<ChatView>::empty() =~= start);
                    while i < entries.len()
                        invariant
                            i <= entries.len(),
                            all == json::entries_view(entries@),
                            *value matches Json::Object { entries: inner, .. } && inner
                                == *entries,
                            chats(messages@) == start + chats_in_entries(
                                all.subrange(0, i as int),
                            ),
                        decreases entries.len() - i,
                    {
                        let ghost next = all.subrange(0, i + 1);
                        assert(next.drop_last() == all.subrange(0, i as int));
                        assert(next[i as int].1 == entries@[i as int].1.viewed());
                        collect_chat_messages(&entries[i].1, messages);
                        assert(start + chats_in_entries(next.drop_last()) + chats_in(
                            next[i as int].1,
                        ) =~= start + (chats_in_entries(next.drop_last()) + chats_in(
                            next[i as int].1,
                        )));
                        i = i + 1;
                    }
                    assert(all.subrange(0, all.len() as int) == all);
                },
            }
        },
        _ => {
            assert(start + Seq::<ChatView>::empty() =~= start);
        },
    }
}


/// The order of messages: by number, those without one first, then by text.
pub open spec fn chat_le(a: ChatView, b: ChatView) -> bool {
    match (a.id, b.id) {
        (None, Some(_)) => true,
        (Some(_), None) => false,
        (None, None) => text::text_le(a.text, b.text),
        (Some(x), Some(y)) => x < y || (x == y && text::text_le(a.text, b.text)),
    }
}

fn chat_not_after(a: &ChatMessage, b: &ChatMessage) -> (r: bool)
    ensures
        r == chat_le(a@, b@),
{
    match (a.id, b.id) {
        (None, Some(_)) => true,
        (Some(_), None) => false,
        (None, None) => text::comes_not_after(a.text.as_str(), b.text.as_str()),
        (Some(x), Some(y)) => x < y || (x == y && text::comes_not_after(
            a.text.as_str(),
            b.text.as_str(),
        )),
    }
}

/// Where `x` goes in an ordered list: behind all that are not after it.
pub open spec fn chat_point(s: Seq<ChatView>, x: ChatView) -> int
    decreases s.len(),
{
    if s.len() == 0 || chat_le(s.last(), x) {
        s.len() as int
    } else {
        chat_point(s.drop_last(), x)
    }
}

/// The messages in order, those that tie in the order given.
pub open spec fn ordered(s: Seq<ChatView>) -> Seq<ChatView>
    decreases s.len(),
{
    if s.len() == 0 {
        s
    } else {
        let before = ordered(s.drop_last());
        before.insert(chat_point(before, s.last()), s.last())
    }
}

/// The list without the entries that repeat the one before them.
pub open spec fn without_repeats(s: Seq<ChatView>) -> Seq<ChatView>
    decreases s.len(),
{
    if s.len() == 0 {
        s
    } else {
        let before = without_repeats(s.drop_last());
        if before.len() > 0 && before.last() == s.last() {
            before
        } else {
            before.push(s.last())
        }
    }
}

pub open spec fn in_order(s: Seq<ChatView>) -> bool {
    forall|i: int, j: int| 0 <= i <= j < s.len() ==> chat_le(#[trigger] s[i], #[trigger] s[j])
}

proof fn lemma_chat_le(a: ChatView, b: ChatView, c: ChatView)
    ensures
        chat_le(a, b) || chat_le(b, a),
        chat_le(a, b) && chat_le(b, c) ==> chat_le(a, c),
{
    text::lemma_text_le_total(a.text, b.text);
    if text::text_le(a.text, b.text) && text::text_le(b.text, c.text) {
        text::lemma_text_le_transitive(a.text, b.text, c.text);
    }
}

proof fn lemma_chat_point(s: Seq<ChatView>, x: ChatView)
    requires
        in_order(s),
    ensures
        0 <= chat_point(s, x) <= s.len(),
        forall|i: int| 0 <= i < chat_point(s, x) ==> chat_le(#[trigger] s[i], x),
        forall|i: int| chat_point(s, x) <= i < s.len() ==> !chat_le(#[trigger] s[i], x),
    decreases s.len(),
{
    if s.len() == 0 {
    } else if chat_le(s.last(), x) {
        assert forall|i: int| 0 <= i < s.len() implies chat_le(#[trigger] s[i], x) by {
            assert(chat_le(s[i], s[s.len() - 1]));
            lemma_chat_le(s[i], s.last(), x);
        }
    } else {
        let t = s.drop_last();
        assert(in_order(t)) by {
            assert forall|i: int, j: int| 0 <= i <= j < t.len() implies chat_le(
                #[trigger] t[i],
                #[trigger] t[j],
            ) by {
                assert(chat_le(s[i], s[j]));
            }
        }
        lemma_chat_point(t, x);
        let k = chat_point(t, x);
        assert forall|i: int| 0 <= i < k implies chat_le(#[trigger] s[i], x) by {
            assert(t[i] == s[i]);
        }
        assert forall|i: int| k <= i < s.len() implies !chat_le(#[trigger] s[i], x) by {
            if i < t.len() {
                assert(t[i] == s[i]);
            }
        }
    }
}

/// Ordering messages loses none and invents none.
pub proof fn lemma_ordered(s: Seq<ChatView>)
    ensures
        in_order(ordered(s)),
        ordered(s).to_multiset() == s.to_multiset(),
        ordered(s).len() == s.len(),
    decreases s.len(),
{
    if s.len() > 0 {
        let before = ordered(s.drop_last());
        let x = s.last();
        lemma_ordered(s.drop_last());
        lemma_chat_point(before, x);
        let k = chat_point(before, x);
        let after = before.insert(k, x);
        assert forall|i: int, j: int| 0 <= i <= j < after.len() implies chat_le(
            #[trigger] after[i],
            #[trigger] after[j],
        ) by {
            lemma_chat_le(after[i], after[j], x);
            if i < k && j > k {
                assert(chat_le(before[i], before[j - 1]));
            } else if j < k {
                assert(chat_le(before[i], before[j]));
            } else if i > k {
                assert(chat_le(before[i - 1], before[j - 1]));
            } else if i < k && j == k {
                assert(chat_le(before[i], x));
            } else if i == k && j > k {
                assert(!chat_le(before[j - 1], x));
            }
        }
        broadcast use vstd::seq_lib::group_to_multiset_ensures;

        assert(s == s.drop_last().push(x));
        assert(after.remove(k) == before);
        assert(after.contains(x)) by {
            assert(after[k] == x);
        }
        after.to_multiset_ensures();
        assert(after.to_multiset() =~= before.to_multiset().insert(x));
    }
}

fn sort_messages(messages: Vec<ChatMessage>) -> (r: Vec<ChatMessage>)
    ensures
        chats(r@) == ordered(chats(messages@)),
{
    let ghost all = chats(messages@);
    let mut source = messages;
    let mut reversed: Vec<ChatMessage> = Vec::new();
    let n: usize = source.len();
    assert(all.subrange(0, n as int) == all);
    while source.len() > 0
        invariant
            n == all.len(),
            source.len() + reversed.len() == n,
            chats(source@) == all.subrange(0, source@.len() as int),
            forall|i: int|
                0 <= i < reversed@.len() ==> (#[trigger] reversed@[i])@ == all[n - 1 - i],
        decreases source.len(),
    {
        let ghost before = source@;
        match source.pop() {
            Some(m) => {
                assert(chats(before).last() == m@);
                assert(chats(source@) =~= chats(before).drop_last());
                reversed.push(m);
            },
            None => {},
        }
    }
    let mut r: Vec<ChatMessage> = Vec::new();
    assert(chats(r@) =~= ordered(all.subrange(0, 0)));
    while reversed.len() > 0
        invariant
            n == all.len(),
            r.len() + reversed.len() == n,
            chats(r@) == ordered(all.subrange(0, r@.len() as int)),
            forall|i: int|
                0 <= i < reversed@.len() ==> (#[trigger] reversed@[i])@ == all[n - 1 - i],
        decreases reversed.len(),
    {
        let ghost k = r@.len() as int;
        assert(reversed@[reversed@.len() - 1]@ == all[k]);
        match reversed.pop() {
            Some(m) => {
                let ghost next = all.subrange(0, k + 1);
                assert(next.drop_last() == all.subrange(0, k));
                assert(next.last() == m@);
                let ghost sorted = chats(r@);
                let mut at: usize = r.len();
                assert(sorted.subrange(0, sorted.len() as int) == sorted);
                while at > 0 && !chat_not_after(&r[at - 1], &m)
                    invariant
                        at <= r.len(),
                        sorted == chats(r@),
                        chat_point(sorted, m@) == chat_point(sorted.subrange(0, at as int), m@),
                    decreases at,
                {
                    assert(sorted.subrange(0, at as int).drop_last() == sorted.subrange(
                        0,
                        at - 1,
                    ));
                    at = at - 1;
                }
                assert(at == chat_point(sorted, m@));
                r.insert(at, m);
                assert(chats(r@) =~= sorted.insert(at as int, m@));
            },
            None => {},
        }
    }
    assert(all.subrange(0, all.len() as int) == all);
    r
}

fn same_opt(a: &Option<String>, b: &Option<String>) -> (r: bool)
    ensures
        r == (text::opt_text(*a) == text::opt_text(*b)),
{
    match (a, b) {
        (Some(x), Some(y)) => text::same(x.as_str(), y.as_str()),
        (None, None) => true,
        _ => false,
    }
}

fn same_message(a: &ChatMessage, b: &ChatMessage) -> (r: bool)
    ensures
        r == (a@ == b@),
{
    a.id == b.id && same_opt(&a.time, &b.time) && same_opt(&a.sender, &b.sender) && text::same(
        a.text.as_str(),
        b.text.as_str(),
    )
}

fn drop_repeats(messages: Vec<ChatMessage>) -> (r: Vec<ChatMessage>)
    ensures
        chats(r@) == without_repeats(chats(messages@)),
{
    let ghost all = chats(messages@);
    let mut source = messages;
    let mut r: Vec<ChatMessage> = Vec::new();
    let ghost mut done: int = 0;
    assert(chats(r@) =~= without_repeats(all.subrange(0, 0)));
    assert(all.subrange(0, all.len() as int) == all);
    while source.len() > 0
        invariant
            0 <= done <= all.len(),
            source@.len() == all.len() - done,
            chats(source@) == all.subrange(done, all.len() as int),
            chats(r@) == without_repeats(all.subrange(0, done)),
        decreases source.len(),
    {
        let ghost before = source@;
        let m = source.remove(0);
        proof {
            assert(chats(before)[0] == m@);
            assert(chats(source@) =~= chats(before).drop_first());
            assert(chats(before).drop_first() =~= all.subrange(done + 1, all.len() as int));
            assert(all.subrange(0, done + 1).drop_last() == all.subrange(0, done));
            assert(all.subrange(0, done + 1).last() == m@);
        }
        let ghost kept = chats(r@);
        let repeats: bool = r.len() > 0 && same_message(&r[r.len() - 1], &m);
        proof {
            if r@.len() > 0 {
                assert(kept.last() == r@[r@.len() - 1]@);
            }
        }
        if !repeats {
            r.push(m);
            assert(chats(r@) =~= kept.push(m@));
        }
        proof {
            done = done + 1;
        }
    }
    r
}

/// The messages in a value, in order, each once.
pub open spec fn messages_in(value: JsonView) -> Seq<ChatView> {
    without_repeats(ordered(chats_in(value)))
}

pub fn extract_chat_messages(value: &Json) -> (r: Vec<ChatMessage>)
    ensures
        chats(r@) == messages_in(value.viewed()),
{
    let mut messages: Vec<ChatMessage> = Vec::new();
    assert(chats(messages@) =~= Seq::<ChatView>::empty());
    collect_chat_messages(value, &mut messages);
    assert(Seq::<ChatView>::empty() + chats_in(value.viewed()) =~= chats_in(value.viewed()));
    drop_repeats(sort_messages(messages))
}

/// The number under the first of the keys that holds one, in the value itself
/// or, from first to last, in what it holds.
pub open spec fn named_number(value: JsonView, keys: Seq<Seq<char>>) -> Option<u64>
    decreases value,
{
    match value {
        JsonView::Object { entries, .. } => match first_number(entries, keys) {
            Some(n) => Some(n),
            None => named_number_in_entries(entries, keys),
        },
        JsonView::Array { items, .. } => named_number_in_all(items, keys),
        _ => None,
    }
}

pub open spec fn named_number_in_all(items: Seq<JsonView>, keys: Seq<Seq<char>>) -> Option<u64>
    decreases items,
{
    if items.len() == 0 {
        None
    } else {
        match named_number_in_all(items.drop_last(), keys) {
            Some(n) => Some(n),
            None => named_number(items[items.len() - 1], keys),
        }
    }
}

pub open spec fn named_number_in_entries(
    entries: Seq<(Seq<char>, JsonView)>,
    keys: Seq<Seq<char>>,
) -> Option<u64>
    decreases entries,
{
    if entries.len() == 0 {
        None
    } else {
        match named_number_in_entries(entries.drop_last(), keys) {
            Some(n) => Some(n),
            None => named_number(entries[entries.len() - 1].1, keys),
        }
    }
}

proof fn lemma_named_number_in_all_prefix(items: Seq<JsonView>, keys: Seq<Seq<char>>, k: int)
    requires
        0 <= k <= items.len(),
        named_number_in_all(items.subrange(0, k), keys) is Some,
    ensures
        named_number_in_all(items, keys) == named_number_in_all(items.subrange(0, k), keys),
    decreases items.len() - k,
{
    if k == items.len() {
        assert(items.subrange(0, k) == items);
    } else {
        assert(items.subrange(0, k + 1).drop_last() == items.subrange(0, k));
        lemma_named_number_in_all_prefix(items, keys, k + 1);
    }
}

proof fn lemma_named_number_in_entries_prefix(
    entries: Seq<(Seq<char>, JsonView)>,
    keys: Seq<Seq<char>>,
    k: int,
)
    requires
        0 <= k <= entries.len(),
        named_number_in_entries(entries.subrange(0, k), keys) is Some,
    ensures
        named_number_in_entries(entries, keys) == named_number_in_entries(
            entries.subrange(0, k),
            keys,
        ),
    decreases entries.len() - k,
{
    if k == entries.len() {
        assert(entries.subrange(0, k) == entries);
    } else {
        assert(entries.subrange(0, k + 1).drop_last() == entries.subrange(0, k));
        lemma_named_number_in_entries_prefix(entries, keys, k + 1);
    }
}

fn find_named_u64(value: &Json, keys: &[&str]) -> (r: Option<u64>)
    ensures
        r == named_number(value.viewed(), text::strs(keys@)),
    decreases *value,
{
    proof {
        json::lemma_viewed(*value);
    }
    let ghost names = text::strs(keys@);
    match value {
        Json::Object { entries, .. } => {
            if let Some(n) = first_u64(entries, keys) {
                return Some(n);
            }
            let ghost all = json::entries_view(entries@);
            let mut i: usize = 0;
            while i < entries.len()
                invariant
                    i <= entries.len(),
                    all == json::entries_view(entries@),
                    names == text::strs(keys@),
                    *value matches Json::Object { entries: inner, .. } && inner == *entries,
                    value.viewed() matches JsonView::Object { entries: seen, .. } && seen == all,
                    first_number(all, names) is None,
                    named_number_in_entries(all.subrange(0, i as int), names) is None,
                decreases entries.len() - i,
            {
                let ghost next = all.subrange(0, i + 1);
                assert(next.drop_last() == all.subrange(0, i as int));
                assert(next[i as int].1 == entries@[i as int].1.viewed());
                let found: Option<u64> = find_named_u64(&entries[i].1, keys);
                if found.is_some() {
                    proof {
                        lemma_named_number_in_entries_prefix(all, names, i + 1);
                    }
                    return found;
                }
                i = i + 1;
            }
            assert(all.subrange(0, all.len() as int) == all);
            None
        },
        Json::Array { items, .. } => {
            let ghost all = json::items_view(items@);
            let mut i: usize = 0;
            while i < items.len()
                invariant
                    i <= items.len(),
                    all == json::items_view(items@),
                    names == text::strs(keys@),
                    *value matches Json::Array { items: inner, .. } && inner == *items,
                    value.viewed() matches JsonView::Array { items: seen, .. } && seen == all,
                    named_number_in_all(all.subrange(0, i as int), names) is None,
                decreases items.len() - i,
            {
                let ghost next = all.subrange(0, i + 1);
                assert(next.drop_last() == all.subrange(0, i as int));
                assert(next[i as int] == items@[i as int].viewed());
                let found: Option<u64> = find_named_u64(&items[i], keys);
                if found.is_some() {
                    proof {
                        lemma_named_number_in_all_prefix(all, names, i + 1);
                    }
                    return found;
                }
                i = i + 1;
            }
            assert(all.subrange(0, all.len() as int) == all);
            None
        },
        _ => None,
    }
}

/// The highest number of the messages.
pub open spec fn highest_id(messages: Seq<ChatView>) -> Option<u64>
    decreases messages.len(),
{
    if messages.len() == 0 {
        None
    } else {
        match (highest_id(messages.drop_last()), messages.last().id) {
            (Some(a), Some(b)) => Some(
                if a > b {
                    a
                } else {
                    b
                },
            ),
            (Some(a), None) => Some(a),
            (None, last) => last,
        }
    }
}

pub open spec fn last_id_keys() -> Seq<Seq<char>> {
    seq!["lastId"@, "last_id"@, "nextLastId"@, "next_last_id"@]
}

/// The number for the next request: the one that the answer names, else the
/// highest of its messages.
pub open spec fn announced_id(json: JsonView, messages: Seq<ChatView>) -> Option<u64> {
    match named_number(json, last_id_keys()) {
        Some(n) => Some(n),
        None => highest_id(messages),
    }
}

pub open spec fn advanced_id(current: u64, json: JsonView, messages: Seq<ChatView>) -> u64 {
    match announced_id(json, messages) {
        Some(n) => if n > current {
            n
        } else {
            current
        },
        None => current,
    }
}

fn next_last_id(json: &Json, messages: &Vec<ChatMessage>) -> (r: Option<u64>)
    ensures
        r == announced_id(json.viewed(), chats(messages@)),
{
    let keys: [&str; 4] = ["lastId", "last_id", "nextLastId", "next_last_id"];
    assert(text::strs(keys@) =~= last_id_keys());
    if let Some(n) = find_named_u64(json, keys.as_slice()) {
        return Some(n);
    }
    let ghost all = chats(messages@);
    let mut highest: Option<u64> = None;
    let mut i: usize = 0;
    while i < messages.len()
        invariant
            i <= messages.len(),
            all == chats(messages@),
            highest == highest_id(all.subrange(0, i as int)),
        decreases messages.len() - i,
    {
        let ghost next = all.subrange(0, i + 1);
        assert(next.drop_last() == all.subrange(0, i as int));
        assert(next.last() == messages@[i as int]@);
        match (highest, messages[i].id) {
            (Some(a), Some(b)) => {
                if b >= a {
                    highest = Some(b);
                }
            },
            (None, id) => {
                highest = id;
            },
            _ => {},
        }
        i = i + 1;
    }
    assert(all.subrange(0, all.len() as int) == all);
    highest
}

/// The number of the last message, which never goes back.
pub fn update_last_chat_id(
    current_last_id: u64,
    json: &Json,
    messages: &Vec<ChatMessage>,
) -> (r: u64)
    ensures
        r == advanced_id(current_last_id, json.viewed(), chats(messages@)),
        r >= current_last_id,
{
    match next_last_id(json, messages) {
        Some(n) => if n > current_last_id {
            n
        } else {
            current_last_id
        },
        None => current_last_id,
    }
}

/// No message with a number is asked for again once the number of the last
/// one has been advanced over it, unless the answer names another number.
pub proof fn lemma_advanced_id_covers_messages(
    current: u64,
    json: JsonView,
    messages: Seq<ChatView>,
    i: int,
)
    requires
        named_number(json, last_id_keys()) is None,
        0 <= i < messages.len(),
    ensures
        messages[i].id matches Some(id) ==> id <= advanced_id(current, json, messages),
{
    lemma_highest_id(messages, i);
}

proof fn lemma_highest_id(messages: Seq<ChatView>, i: int)
    requires
        0 <= i < messages.len(),
    ensures
        messages[i].id matches Some(id) ==> (highest_id(messages) matches Some(h) && id <= h),
    decreases messages.len(),
{
    if i < messages.len() - 1 {
        lemma_highest_id(messages.drop_last(), i);
        assert(messages.drop_last()[i] == messages[i]);
    }
}

/// What an answer to a request for chat messages says.
pub fn fetch_gamechat(last_id: u64, answer: &Json) -> (r: ChatPoll)
    ensures
        chats(r.messages@) == messages_in(answer.viewed()),
        r.next_last_id == advanced_id(last_id, answer.viewed(), messages_in(answer.viewed())),
{
    let messages = extract_chat_messages(answer);
    let next_last_id: u64 = update_last_chat_id(last_id, answer, &messages);
    ChatPoll { messages, next_last_id }
}

/// The messages under `key`.
pub open spec fn messages_under(answer: JsonView, key: Seq<char>) -> Seq<ChatView> {
    match answer.field(key) {
        Some(value) => messages_in(value),
        None => seq![],
    }
}

fn messages_at(answer: &Json, key: &str) -> (r: Vec<ChatMessage>)
    ensures
        chats(r@) == messages_under(answer.viewed(), key@),
{
    match answer.get(key) {
        Some(value) => extract_chat_messages(value),
        None => {
            let r: Vec<ChatMessage> = Vec::new();
            assert(chats(r@) =~= Seq::<ChatView>::empty());
            r
        },
    }
}

/// What an answer to a request for the display's log says.
pub fn fetch_hudmsg(last_evt_id: u64, last_dmg_id: u64, answer: &Json) -> (r: HudPoll)
    ensures
        chats(r.events@) == messages_under(answer.viewed(), "events"@),
        chats(r.damage@) == messages_under(answer.viewed(), "damage"@),
        r.next_last_evt_id == advanced_id(last_evt_id, JsonView::Null, chats(r.events@)),
        r.next_last_dmg_id == advanced_id(last_dmg_id, JsonView::Null, chats(r.damage@)),
{
    let events = messages_at(answer, "events");
    let damage = messages_at(answer, "damage");
    let next_last_evt_id: u64 = update_last_chat_id(last_evt_id, &Json::Null, &events);
    let next_last_dmg_id: u64 = update_last_chat_id(last_dmg_id, &Json::Null, &damage);
    HudPoll { events, damage, next_last_evt_id, next_last_dmg_id }
}


/// A text as a line of its own, where it is not blank.
pub open spec fn line_of(t: Seq<char>) -> Seq<Seq<char>> {
    if text::trim_of(t).len() == 0 {
        seq![]
    } else {
        seq![text::trim_of(t)]
    }
}

fn push_message(messages: &mut Vec<String>, t: &str)
    ensures
        text::texts(final(messages)@) == text::texts(old(messages)@) + line_of(t@),
{
    let ghost before = text::texts(messages@);
    let t = text::trim(t);
    if !t.is_empty() {
        let line: String = t.to_owned();
        messages.push(line);
        assert(text::texts(messages@) =~= before + seq![line@]);
    } else {
        assert(before + Seq::<Seq<char>>::empty() =~= before);
    }
}

pub open spec fn spoken_keys() -> Seq<Seq<char>> {
    seq!["msg"@, "message"@, "text"@, "sender"@, "player"@, "mode"@]
}

/// The texts under the keys, blank ones too, in the order of the keys.
pub open spec fn all_texts_under(
    entries: Seq<(Seq<char>, JsonView)>,
    keys: Seq<Seq<char>>,
) -> Seq<Seq<char>>
    decreases keys.len(),
{
    if keys.len() == 0 {
        seq![]
    } else {
        let before = all_texts_under(entries, keys.drop_last());
        match json::field_of(entries, keys.last()) {
            Some(JsonView::Text(t)) => before.push(t),
            _ => before,
        }
    }
}

fn all_strings_under(entries: &Vec<(String, Json)>, keys: &[&str]) -> (r: Vec<String>)
    ensures
        text::texts(r@) == all_texts_under(json::entries_view(entries@), text::strs(keys@)),
{
    let ghost all = text::strs(keys@);
    let mut r: Vec<String> = Vec::new();
    let mut i: usize = 0;
    assert(text::texts(r@) =~= Seq::<Seq<char>>::empty());
    while i < keys.len()
        invariant
            i <= keys.len(),
            all == text::strs(keys@),
            text::texts(r@) == all_texts_under(
                json::entries_view(entries@),
                all.subrange(0, i as int),
            ),
        decreases keys.len() - i,
    {
        let ghost next = all.subrange(0, i + 1);
        assert(next.drop_last() == all.subrange(0, i as int));
        assert(next.last() == keys@[i as int]@);
        let ghost before = text::texts(r@);
        if let Some(value) = json::field(entries, keys[i]) {
            if let Some(t) = value.as_str() {
                let t: String = t.to_owned();
                r.push(t);
                assert(text::texts(r@) =~= before.push(t@));
            }
        }
        i = i + 1;
    }
    assert(all.subrange(0, all.len() as int) == all);
    r
}

/// The lines of the display's log anywhere in a value. What an object says
/// under its known keys is one line.
pub open spec fn lines_in(value: JsonView) -> Seq<Seq<char>>
    decreases value,
{
    match value {
        JsonView::Text(t) => line_of(t),
        JsonView::Array { items, .. } => lines_in_all(items),
        JsonView::Object { entries, .. } => {
            let said = all_texts_under(entries, spoken_keys());
            if said.len() == 0 {
                lines_in_entries(entries)
            } else {
                line_of(text::joined(said, " "@))
            }
        },
        _ => seq![],
    }
}

pub open spec fn lines_in_all(items: Seq<JsonView>) -> Seq<Seq<char>>
    decreases items,
{
    if items.len() == 0 {
        seq![]
    } else {
        lines_in_all(items.drop_last()) + lines_in(items[items.len() - 1])
    }
}

pub open spec fn lines_in_entries(entries: Seq<(Seq<char>, JsonView)>) -> Seq<Seq<char>>
    decreases entries,
{
    if entries.len() == 0 {
        seq![]
    } else {
        lines_in_entries(entries.drop_last()) + lines_in(entries[entries.len() - 1].1)
    }
}

fn collect_text_messages(value: &Json, messages: &mut Vec<String>)
    ensures
        text::texts(final(messages)@) == text::texts(old(messages)@) + lines_in(value.viewed()),
    decreases *value,
{
    proof {
        json::lemma_viewed(*value);
    }
    let ghost start = text::texts(messages@);
    match value {
        Json::Text(t) => push_message(messages, t.as_str()),
        Json::Array { items, .. } => {
            let ghost all = json::items_view(items@);
            let mut i: usize = 0;
            assert(start + Seq::<Seq<char>>::empty() =~= start);
            while i < items.len()
                invariant
                    i <= items.len(),
                    all == json::items_view(items@),
                    *value matches Json::Array { items: inner, .. } && inner == *items,
                    text::texts(messages@) == start + lines_in_all(all.subrange(0, i as int)),
                decreases items.len() - i,
            {
                let ghost next = all.subrange(0, i + 1);
                assert(next.drop_last() == all.subrange(0, i as int));
                assert(next[i as int] == items@[i as int].viewed());
                collect_text_messages(&items[i], messages);
                assert(start + lines_in_all(next.drop_last()) + lines_in(next[i as int]) =~= start
                    + (lines_in_all(next.drop_last()) + lines_in(next[i as int])));
                i = i + 1;
            }
            assert(all.subrange(0, all.len() as int) == all);
        },
        Json::Object { entries, .. } => {
            let keys: [&str; 6] = ["msg", "message", "text", "sender", "player", "mode"];
            assert(text::strs(keys@) =~= spoken_keys());
            let selected = all_strings_under(entries, keys.as_slice());
            if selected.len() == 0 {
                assert(text::texts(selected@).len() == 0);
                let ghost all = json::entries_view(entries@);
                let mut i: usize = 0;
                assert(start + Seq::<Seq<char>>::empty() =~= start);
                while i < entries.len()
                    invariant
                        i <= entries.len(),
                        all == json::entries_view(entries@),
                        *value matches Json::Object { entries: inner, .. } && inner == *entries,
                        text::texts(messages@) == start + lines_in_entries(
                            all.subrange(0, i as int),
                        ),
                    decreases entries.len() - i,
                {
                    let ghost next = all.subrange(0, i + 1);
                    assert(next.drop_last() == all.subrange(0, i as int));
                    assert(next[i as int].1 == entries@[i as int].1.viewed());
                    collect_text_messages(&entries[i].1, messages);
                    assert(start + lines_in_entries(next.drop_last()) + lines_in(
                        next[i as int].1,
                    ) =~= start + (lines_in_entries(next.drop_last()) + lines_in(
                        next[i as int].1,
                    )));
                    i = i + 1;
                }
                assert(all.subrange(0, all.len() as int) == all);
            } else {
                assert(text::texts(selected@).len() > 0);
                let line = text::join(&selected, " ");
                push_message(messages, line.as_str());
            }
        },
        _ => {
            assert(start + Seq::<Seq<char>>::empty() =~= start);
        },
    }
}

/// A text in lower case that may tell of an event.
pub open spec fn eventish(lowered: Seq<char>) -> bool {
    ||| text::occurs_in(lowered, "destroyed"@)
    ||| text::occurs_in(lowered, "critical"@)
    ||| text::occurs_in(lowered, "severe"@)
    ||| text::occurs_in(lowered, "mission"@)
    ||| text::occurs_in(lowered, "damage"@)
    ||| text::occurs_in(lowered, "hit"@)
}

/// May a text in lower case tell of an event?
pub fn mentions_event(lowered: &str) -> (r: bool)
    ensures
        r == eventish(lowered@),
{
    text::contains(lowered, "destroyed") || text::contains(lowered, "critical") || text::contains(
        lowered,
        "severe",
    ) || text::contains(lowered, "mission") || text::contains(lowered, "damage") || text::contains(
        lowered,
        "hit",
    )
}

/// The texts anywhere in a value that may tell of an event.
pub open spec fn event_lines_in(value: JsonView) -> Seq<Seq<char>>
    decreases value,
{
    match value {
        JsonView::Text(t) => if eventish(text::lowered(t)) {
            line_of(t)
        } else {
            seq![]
        },
        JsonView::Array { items, .. } => event_lines_in_all(items),
        JsonView::Object { entries, .. } => event_lines_in_entries(entries),
        _ => seq![],
    }
}

pub open spec fn event_lines_in_all(items: Seq<JsonView>) -> Seq<Seq<char>>
    decreases items,
{
    if items.len() == 0 {
        seq![]
    } else {
        event_lines_in_all(items.drop_last()) + event_lines_in(items[items.len() - 1])
    }
}

pub open spec fn event_lines_in_entries(entries: Seq<(Seq<char>, JsonView)>) -> Seq<Seq<char>>
    decreases entries,
{
    if entries.len() == 0 {
        seq![]
    } else {
        event_lines_in_entries(entries.drop_last()) + event_lines_in(entries[entries.len() - 1].1)
    }
}

fn collect_eventish_text(value: &Json, messages: &mut Vec<String>)
    ensures
        text::texts(final(messages)@) == text::texts(old(messages)@) + event_lines_in(
            value.viewed(),
        ),
    decreases *value,
{
    proof {
        json::lemma_viewed(*value);
    }
    let ghost start = text::texts(messages@);
    match value {
        Json::Text(t) => {
            let lowered = text::to_lowercase(t.as_str());
            if mentions_event(lowered.as_str()) {
                push_message(messages, t.as_str());
            } else {
                assert(start + Seq::<Seq<char>>::empty() =~= start);
            }
        },
        Json::Array { items, .. } => {
            let ghost all = json::items_view(items@);
            let mut i: usize = 0;
            assert(start + Seq::<Seq<char>>::empty() =~= start);
            while i < items.len()
                invariant
                    i <= items.len(),
                    all == json::items_view(items@),
                    *value matches Json::Array { items: inner, .. } && inner == *items,
                    text::texts(messages@) == start + event_lines_in_all(
                        all.subrange(0, i as int),
                    ),
                decreases items.len() - i,
            {
                let ghost next = all.subrange(0, i + 1);
                assert(next.drop_last() == all.subrange(0, i as int));
                assert(next[i as int] == items@[i as int].viewed());
                collect_eventish_text(&items[i], messages);
                assert(start + event_lines_in_all(next.drop_last()) + event_lines_in(
                    next[i as int],
                ) =~= start + (event_lines_in_all(next.drop_last()) + event_lines_in(
                    next[i as int],
                )));
                i = i + 1;
            }
            assert(all.subrange(0, all.len() as int) == all);
        },
        Json::Object { entries, .. } => {
            let ghost all = json::entries_view(entries@);
            let mut i: usize = 0;
            assert(start + Seq::<Seq<char>>::empty() =~= start);
            while i < entries.len()
                invariant
                    i <= entries.len(),
                    all == json::entries_view(entries@),
                    *value matches Json::Object { entries: inner, .. } && inner == *entries,
                    text::texts(messages@) == start + event_lines_in_entries(
                        all.subrange(0, i as int),
                    ),
                decreases entries.len() - i,
            {
                let ghost next = all.subrange(0, i + 1);
                assert(next.drop_last() == all.subrange(0, i as int));
                assert(next[i as int].1 == entries@[i as int].1.viewed());
                collect_eventish_text(&entries[i].1, messages);
                assert(start + event_lines_in_entries(next.drop_last()) + event_lines_in(
                    next[i as int].1,
                ) =~= start + (event_lines_in_entries(next.drop_last()) + event_lines_in(
                    next[i as int].1,
                )));
                i = i + 1;
            }
            assert(all.subrange(0, all.len() as int) == all);
        },
        _ => {
            assert(start + Seq::<Seq<char>>::empty() =~= start);
        },
    }
}

pub open spec fn chat_texts(s: Seq<ChatView>) -> Seq<Seq<char>> {
    s.map_values(|m: ChatView| m.text)
}

impl Endpoint {
    /// The lines that an answer of this endpoint holds, before they are put in
    /// order.
    pub open spec fn lines(self, answer: JsonView) -> Seq<Seq<char>> {
        match self {
            Endpoint::HudMsg => lines_in(answer),
            Endpoint::GameChat => chat_texts(messages_in(answer)),
            Endpoint::State | Endpoint::MapObj => event_lines_in(answer),
            Endpoint::Indicators | Endpoint::MapInfo => seq![],
        }
    }

    /// The lines that an answer of this endpoint holds, in order, each once.
    pub fn extract_messages(self, answer: &Json) -> (r: Vec<String>)
        ensures
            text::texts(r@) == text::ordered_once(self.lines(answer.viewed())),
    {
        let mut messages: Vec<String> = Vec::new();
        let ghost none = text::texts(messages@);
        assert(none =~= Seq::<Seq<char>>::empty());
        match self {
            Endpoint::HudMsg => {
                collect_text_messages(answer, &mut messages);
                assert(none + lines_in(answer.viewed()) =~= lines_in(answer.viewed()));
            },
            Endpoint::GameChat => {
                let chat = extract_chat_messages(answer);
                let ghost all = chat_texts(chats(chat@));
                let mut i: usize = 0;
                while i < chat.len()
                    invariant
                        i <= chat.len(),
                        all == chat_texts(chats(chat@)),
                        text::texts(messages@) == all.subrange(0, i as int),
                    decreases chat.len() - i,
                {
                    let ghost before = text::texts(messages@);
                    messages.push(chat[i].text.clone());
                    assert(text::texts(messages@) =~= before.push(chat@[i as int].text@));
                    assert(all[i as int] == chat@[i as int].text@);
                    i = i + 1;
                }
                assert(all.subrange(0, all.len() as int) == all);
            },
            Endpoint::State | Endpoint::MapObj => {
                collect_eventish_text(answer, &mut messages);
                assert(none + event_lines_in(answer.viewed()) =~= event_lines_in(answer.viewed()));
            },
            Endpoint::Indicators | Endpoint::MapInfo => {},
        }
        text::sort_and_dedup(&messages)
    }
}

/// What a value is, in a few words.
pub open spec fn summary_of(value: JsonView) -> Seq<char> {
    match value {
        JsonView::Object { entries, .. } => "object with "@ + text::decimal(entries.len())
            + " keys"@,
        JsonView::Array { items, .. } => "array with "@ + text::decimal(items.len()) + " items"@,
        JsonView::Null => "null"@,
        JsonView::Bool(b) => if b {
            "bool true"@
        } else {
            "bool false"@
        },
        JsonView::Number { shown, .. } => "number "@ + shown,
        JsonView::Text(t) => "string "@ + text::decimal(
            encode_utf8(t).len() as usize as nat,
        ) + " chars"@,
    }
}

fn counted(before: &str, n: usize, after: &str) -> (r: String)
    ensures
        r@ == before@ + text::decimal(n as nat) + after@,
{
    let mut r: String = before.to_owned();
    r.append(text::decimal_text(n as u128).as_str());
    r.append(after);
    r
}

pub fn summarize_json(value: &Json) -> (r: String)
    ensures
        r@ == summary_of(value.viewed()),
{
    proof {
        json::lemma_viewed(*value);
    }
    match value {
        Json::Object { entries, .. } => counted("object with ", entries.len(), " keys"),
        Json::Array { items, .. } => counted("array with ", items.len(), " items"),
        Json::Null => "null".to_owned(),
        Json::Bool(b) => if *b {
            "bool true".to_owned()
        } else {
            "bool false".to_owned()
        },
        Json::Number { shown, .. } => text::join2("number ", shown.as_str()),
        Json::Text(t) => counted("string ", t.as_str().len(), " chars"),
    }
}

/// A value in the compact notation; a text without its quotes.
pub open spec fn compact(value: JsonView) -> Seq<char> {
    match value {
        JsonView::Text(t) => t,
        JsonView::Null => "null"@,
        JsonView::Bool(b) => if b {
            "true"@
        } else {
            "false"@
        },
        JsonView::Number { shown, .. } => shown,
        JsonView::Array { shown, .. } => shown,
        JsonView::Object { shown, .. } => shown,
    }
}

pub fn compact_value(value: &Json) -> (r: String)
    ensures
        r@ == compact(value.viewed()),
{
    match value {
        Json::Text(t) => t.clone(),
        Json::Null => "null".to_owned(),
        Json::Bool(b) => if *b {
            "true".to_owned()
        } else {
            "false".to_owned()
        },
        Json::Number { shown, .. } => shown.clone(),
        Json::Array { shown, .. } => shown.clone(),
        Json::Object { shown, .. } => shown.clone(),
    }
}

pub open spec fn state_keys() -> Seq<Seq<char>> {
    seq!["valid"@, "game_time"@, "speed"@, "altitude"@, "fuel"@, "army"@]
}

/// The keys that the object has, each with its value.
pub open spec fn shown_fields(
    entries: Seq<(Seq<char>, JsonView)>,
    keys: Seq<Seq<char>>,
) -> Seq<Seq<char>>
    decreases keys.len(),
{
    if keys.len() == 0 {
        seq![]
    } else {
        let before = shown_fields(entries, keys.drop_last());
        match json::field_of(entries, keys.last()) {
            Some(value) => before.push(keys.last() + "="@ + compact(value)),
            None => before,
        }
    }
}

/// What the state endpoint says, in one line: some of its fields, or what kind
/// of value it is where it has none of them.
pub open spec fn state_line(state: JsonView) -> Seq<char> {
    match state {
        JsonView::Object { entries, .. } => {
            let fields = shown_fields(entries, state_keys());
            if fields.len() == 0 {
                summary_of(state)
            } else {
                text::joined(fields, ", "@)
            }
        },
        _ => summary_of(state),
    }
}

pub fn state_summary(state: &Json) -> (r: String)
    ensures
        r@ == state_line(state.viewed()),
{
    proof {
        json::lemma_viewed(*state);
    }
    match state {
        Json::Object { entries, .. } => {
            let keys: [&str; 6] = ["valid", "game_time", "speed", "altitude", "fuel", "army"];
            let ghost all = state_keys();
            assert(text::strs(keys@) =~= all);
            let mut fields: Vec<String> = Vec::new();
            let mut i: usize = 0;
            assert(text::texts(fields@) =~= Seq::<Seq<char>>::empty());
            while i < keys.len()
                invariant
                    i <= keys.len(),
                    all == text::strs(keys@),
                    text::texts(fields@) == shown_fields(
                        json::entries_view(entries@),
                        all.subrange(0, i as int),
                    ),
                decreases keys.len() - i,
            {
                let ghost next = all.subrange(0, i + 1);
                assert(next.drop_last() == all.subrange(0, i as int));
                assert(next.last() == keys@[i as int]@);
                let ghost before = text::texts(fields@);
                if let Some(value) = json::field(entries, keys[i]) {
                    let mut field: String = text::join2(keys[i], "=");
                    field.append(compact_value(value).as_str());
                    fields.push(field);
                    assert(text::texts(fields@) =~= before.push(field@));
                }
                i = i + 1;
            }
            assert(all.subrange(0, all.len() as int) == all);
            if fields.len() == 0 {
                assert(text::texts(fields@).len() == 0);
                summarize_json(state)
            } else {
                assert(text::texts(fields@).len() > 0);
                text::join(&fields, ", ")
            }
        },
        _ => summarize_json(state),
    }
}

/// What is known of a request that failed.
#[derive(Debug)]
pub struct RequestFailure {
    pub is_connect: bool,
    pub is_timeout: bool,
    pub is_status: bool,
    pub status: Option<String>,
    pub is_decode: bool,
    pub message: String,
}

/// Why a request failed, in words for the user.
pub open spec fn failure_text(error: RequestFailure) -> Seq<char> {
    if error.is_connect {
        "connection refused or API unavailable"@
    } else if error.is_timeout {
        "request timed out"@
    } else if error.is_status {
        match error.status {
            Some(status) => "HTTP "@ + status@,
            None => "HTTP error"@,
        }
    } else if error.is_decode {
        "invalid JSON response"@
    } else {
        error.message@
    }
}

pub fn friendly_error(error: &RequestFailure) -> (r: String)
    ensures
        r@ == failure_text(*error),
{
    if error.is_connect {
        "connection refused or API unavailable".to_owned()
    } else if error.is_timeout {
        "request timed out".to_owned()
    } else if error.is_status {
        match &error.status {
            Some(status) => text::join2("HTTP ", status.as_str()),
            None => "HTTP error".to_owned(),
        }
    } else if error.is_decode {
        "invalid JSON response".to_owned()
    } else {
        error.message.clone()
    }
}

/// The outcome of one request, as a probe reports it.
pub fn probe_result(endpoint: Endpoint, answer: Result<Json, RequestFailure>) -> (r: EndpointProbe)
    ensures
        match answer {
            Ok(value) => r matches EndpointProbe::Reached { endpoint: e, summary: Some(summary) }
                && e == endpoint && summary@ == summary_of(value.viewed()),
            Err(error) => r matches EndpointProbe::Failed { endpoint: e, error: words } && e
                == endpoint && words@ == failure_text(error),
        },
{
    match answer {
        Ok(value) => EndpointProbe::Reached { endpoint, summary: Some(summarize_json(&value)) },
        Err(error) => EndpointProbe::Failed { endpoint, error: friendly_error(&error) },
    }
}

/// What the state endpoint says; nothing where the server does not answer,
/// and an error where it answers with one.
pub fn state_summary_of_answer(answer: Result<Json, RequestFailure>) -> (r: Result<
    Option<String>,
    RequestFailure,
>)
    ensures
        match answer {
            Ok(state) => r matches Ok(Some(line)) && line@ == state_line(state.viewed()),
            Err(error) => if error.is_connect || error.is_timeout {
                r matches Ok(line) && line is None
            } else {
                r == Err::<Option<String>, RequestFailure>(error)
            },
        },
{
    match answer {
        Ok(state) => Ok(Some(state_summary(&state))),
        Err(error) => if error.is_connect || error.is_timeout {
            Ok(None)
        } else {
            Err(error)
        },
    }
}

/// The address that `reqwest::Url::parse` reads in `source`, in its own notation.
pub uninterp spec fn parsed_url(source: Seq<char>) -> Option<Seq<char>>;

/// `reqwest::Url::parse` reads an address. What it reads is only named; nothing
/// is read where the text is no address.
#[verifier::external_body]
fn parse_url(source: &str) -> (r: Option<String>)
    ensures
        text::opt_text(r) == parsed_url(source@),
{
    reqwest::Url::parse(source).ok().map(|url| url.to_string())
}

/// The address that `reqwest::Url::join` makes of `path_and_query`, seen from
/// the address `base`.
pub uninterp spec fn joined_url(base: Seq<char>, path_and_query: Seq<char>) -> Option<Seq<char>>;

/// `reqwest::Url::join` gives an address seen from another. What it gives is
/// only named; there is none where either text is no address.
#[verifier::external_body]
fn join_url(base: &str, path_and_query: &str) -> (r: Option<String>)
    ensures
        text::opt_text(r) == joined_url(base@, path_and_query@),
{
    let base = reqwest::Url::parse(base).ok()?;
    base.join(path_and_query).ok().map(|url| url.to_string())
}

/// The telemetry server at its base address.
#[derive(Debug)]
pub struct WarThunderClient {
    pub base_url: String,
}

impl WarThunderClient {
    /// A client for the server at `base_url`, where that is an address.
    pub fn new(base_url: &str) -> (r: Option<WarThunderClient>)
        ensures
            match r {
                Some(client) => parsed_url(base_url@) == Some(client.base_url@),
                None => parsed_url(base_url@) is None,
            },
    {
        match parse_url(base_url) {
            Some(base_url) => Some(WarThunderClient { base_url }),
            None => None,
        }
    }

    pub fn base_url(&self) -> (r: &str)
        ensures
            r@ == self.base_url@,
    {
        self.base_url.as_str()
    }

    /// The address of a path on the server.
    pub fn url(&self, path_and_query: &str) -> (r: Option<String>)
        ensures
            text::opt_text(r) == joined_url(self.base_url@, path_and_query@),
    {
        join_url(self.base_url.as_str(), path_and_query)
    }
}

proof fn lemma_without_repeats(s: Seq<ChatView>)
    ensures
        forall|m: ChatView| #[trigger] without_repeats(s).contains(m) <==> s.contains(m),
        s.len() > 0 ==> without_repeats(s).len() > 0 && without_repeats(s).last() == s.last(),
        without_repeats(s).len() <= s.len(),
    decreases s.len(),
{
    if s.len() > 0 {
        let t = s.drop_last();
        let before = without_repeats(t);
        lemma_without_repeats(t);
        let after = without_repeats(s);
        assert forall|m: ChatView| #[trigger] after.contains(m) <==> s.contains(m) by {
            if s.contains(m) {
                let i = choose|i: int| 0 <= i < s.len() && s[i] == m;
                if i < t.len() {
                    assert(t[i] == m);
                    assert(before.contains(m));
                    let k = choose|k: int| 0 <= k < before.len() && before[k] == m;
                    assert(after[k] == m);
                } else {
                    assert(after.last() == m);
                    assert(after[after.len() - 1] == m);
                }
            }
            if after.contains(m) {
                let k = choose|k: int| 0 <= k < after.len() && after[k] == m;
                if k < before.len() {
                    assert(before[k] == m);
                    assert(before.contains(m));
                    assert(t.contains(m));
                    let i = choose|i: int| 0 <= i < t.len() && t[i] == m;
                    assert(s[i] == m);
                } else {
                    assert(s[s.len() - 1] == m);
                }
            }
        }
    }
}

/// An answer gives every message that stands in it and no other, those with
/// numbers in the order of their numbers behind those without.
pub proof fn lemma_messages_in(value: JsonView)
    ensures
        forall|m: ChatView| #[trigger] messages_in(value).contains(m) <==> chats_in(value).contains(
            m,
        ),
        in_order(messages_in(value)),
        forall|i: int, j: int|
            #![trigger messages_in(value)[i], messages_in(value)[j]]
            0 <= i < j < messages_in(value).len() && messages_in(value)[i].id is Some ==> {
                &&& messages_in(value)[j].id is Some
                &&& messages_in(value)[i].id->0 <= messages_in(value)[j].id->0
            },
{
    broadcast use vstd::seq_lib::group_to_multiset_ensures;

    let all = chats_in(value);
    let sorted = ordered(all);
    lemma_ordered(all);
    lemma_without_repeats(sorted);
    all.to_multiset_ensures();
    sorted.to_multiset_ensures();
    assert forall|m: ChatView| #[trigger] messages_in(value).contains(m) <==> all.contains(m) by {
        assert(sorted.contains(m) <==> sorted.to_multiset().count(m) > 0);
        assert(all.contains(m) <==> all.to_multiset().count(m) > 0);
    }
    lemma_repeats_keep_order(sorted);
    let s = messages_in(value);
    assert forall|i: int, j: int|
        #![trigger s[i], s[j]]
        0 <= i < j < s.len() && s[i].id is Some implies s[j].id is Some && s[i].id->0
        <= s[j].id->0 by {
        assert(chat_le(s[i], s[j]));
    }
}

proof fn lemma_repeats_keep_order(s: Seq<ChatView>)
    requires
        in_order(s),
    ensures
        in_order(without_repeats(s)),
    decreases s.len(),
{
    if s.len() > 0 {
        let t = s.drop_last();
        let before = without_repeats(t);
        assert forall|i: int, j: int| 0 <= i <= j < t.len() implies chat_le(
            #[trigger] t[i],
            #[trigger] t[j],
        ) by {
            assert(chat_le(s[i], s[j]));
        }
        lemma_repeats_keep_order(t);
        lemma_without_repeats(t);
        let after = without_repeats(s);
        assert forall|i: int, j: int| 0 <= i <= j < after.len() implies chat_le(
            #[trigger] after[i],
            #[trigger] after[j],
        ) by {
            if j < before.len() {
                assert(chat_le(before[i], before[j]));
            } else if i < before.len() {
                assert(before.contains(before[i]));
                assert(t.contains(before[i]));
                let k = choose|k: int| 0 <= k < t.len() && t[k] == before[i];
                assert(chat_le(s[k], s[s.len() - 1]));
            } else {
                assert(chat_le(s[s.len() - 1], s[s.len() - 1]));
            }
        }
    }
}

/// An object with a text under `msg` is one message: it says that text, and has the
/// number under `id` and the sender under `sender`.
pub proof fn lemma_object_is_a_message(entries: Seq<(Seq<char>, JsonView)>, said: Seq<char>)
    requires
        json::field_of(entries, "msg"@) == Some(JsonView::Text(said)),
        json::field_of(entries, "message"@) is None,
        json::field_of(entries, "text"@) is None,
        text::trim_of(said).len() > 0,
    ensures
        chat_from_entries(entries) is Some,
        chat_from_entries(entries)->0.text == said,
        json::field_of(entries, "id"@) matches Some(id) ==> (id.unsigned_value() is Some
            ==> chat_from_entries(entries)->0.id == id.unsigned_value()),
        json::field_of(entries, "time"@) matches Some(JsonView::Text(t)) ==> (text::trim_of(t).len()
            > 0 ==> chat_from_entries(entries)->0.time == Some(text::trim_of(t))),
        json::field_of(entries, "sender"@) matches Some(JsonView::Text(t)) ==> (text::trim_of(
            t,
        ).len() > 0 ==> chat_from_entries(entries)->0.sender == Some(text::trim_of(t))),
{
    let keys = text_keys();
    assert(keys.drop_last().drop_last().drop_last() =~= Seq::<Seq<char>>::empty());
    assert(keys.last() == "text"@);
    assert(keys.drop_last().last() == "message"@);
    assert(keys.drop_last().drop_last().last() == "msg"@);
    reveal_with_fuel(texts_under, 4);
    let found = texts_under(entries, keys);
    assert(found =~= seq![said]);
    assert(text::joined(found, " "@) == said);
    text::lemma_trimmed_ends(said);
    assert(id_keys()[0] == "id"@);
    assert(time_keys()[0] == "time"@);
    assert(sender_keys()[0] == "sender"@);
}

/// Messages without a number are told apart by what they say.
pub proof fn lemma_texts_tell_messages_apart(a: ChatView, b: ChatView, prefix: Seq<char>)
    requires
        a.id is None,
        b.id is None,
        a.time == b.time,
        a.sender == b.sender,
    ensures
        a.stable_key(prefix) == b.stable_key(prefix) <==> a.text == b.text,
{
    let n = a.stable_key(prefix).len() - a.text.len();
    let m = b.stable_key(prefix).len() - b.text.len();
    assert(n == m);
    assert(a.stable_key(prefix).skip(n as int) =~= a.text);
    assert(b.stable_key(prefix).skip(n as int) =~= b.text);
}

/// The number for the next request never goes back, and is that of the latest
/// message where the answer names none.
pub proof fn lemma_next_number(current: u64, json: JsonView, messages: Seq<ChatView>)
    ensures
        advanced_id(current, json, messages) >= current,
        named_number(json, last_id_keys()) matches Some(n) ==> (n > current ==> advanced_id(
            current,
            json,
            messages,
        ) == n),
        named_number(json, last_id_keys()) is None && advanced_id(current, json, messages)
            > current ==> exists|i: int|
            0 <= i < messages.len() && (#[trigger] messages[i]).id == Some(
                advanced_id(current, json, messages),
            ),
{
    lemma_highest_is_there(messages);
}

proof fn lemma_highest_is_there(messages: Seq<ChatView>)
    ensures
        highest_id(messages) is Some ==> exists|i: int|
            0 <= i < messages.len() && (#[trigger] messages[i]).id == highest_id(messages),
    decreases messages.len(),
{
    if messages.len() > 0 {
        let t = messages.drop_last();
        lemma_highest_is_there(t);
        if highest_id(messages) is Some {
            if messages.last().id == highest_id(messages) {
                assert(messages[messages.len() - 1].id == highest_id(messages));
            } else {
                let i = choose|i: int| 0 <= i < t.len() && (#[trigger] t[i]).id == highest_id(t);
                assert(messages[i] == t[i]);
            }
        }
    }
}

/// A message may say its text under `message` or under `text` as well, and several
/// of them together, in order.
pub proof fn lemma_message_by_other_names(entries: Seq<(Seq<char>, JsonView)>, said: Seq<char>)
    requires
        text::trim_of(said).len() > 0,
    ensures
        json::field_of(entries, "msg"@) is None && json::field_of(entries, "message"@) == Some(
            JsonView::Text(said),
        ) && json::field_of(entries, "text"@) is None ==> chat_from_entries(entries) is Some
            && chat_from_entries(entries)->0.text == said,
        json::field_of(entries, "msg"@) is None && json::field_of(entries, "message"@) is None
            && json::field_of(entries, "text"@) == Some(JsonView::Text(said))
            ==> chat_from_entries(entries) is Some && chat_from_entries(entries)->0.text == said,
        json::field_of(entries, "msg"@) is None && json::field_of(entries, "message"@) is None
            && json::field_of(entries, "text"@) is None ==> chat_from_entries(entries) is None,
{
    let keys = text_keys();
    assert(keys.drop_last().drop_last().drop_last() =~= Seq::<Seq<char>>::empty());
    assert(keys.last() == "text"@);
    assert(keys.drop_last().last() == "message"@);
    assert(keys.drop_last().drop_last().last() == "msg"@);
    reveal_with_fuel(texts_under, 4);
    text::lemma_trimmed_ends(said);
    let found = texts_under(entries, keys);
    if found.len() == 1 {
        assert(text::joined(found, " "@) == found[0]);
    }
}

}
