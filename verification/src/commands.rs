//! The commands of the program: what they print, and what they start with.

use vstd::prelude::*;
use vstd::string::*;
use crate::app::auto::AutoClipConfig;
use crate::cli::DumpEndpoint;
use crate::config;
use crate::config::AppConfig;
use crate::path;
use crate::text;
use crate::time::{Duration, NANOS_PER_SEC};
use crate::warthunder::client;
use crate::warthunder::client::{ChatMessage, ChatPoll, ChatView, Endpoint, EndpointProbe, HudPoll};
use crate::warthunder::events::EventView;
use crate::warthunder::parser;
use crate::warthunder::recent;
use crate::warthunder::recent::RecentMessageCache;
use crate::warthunder::source;

verus! {

pub open spec fn label_of(endpoint: Endpoint) -> Seq<char> {
    match endpoint {
        Endpoint::MapObj => "map_obj"@,
        Endpoint::Indicators => "indicators"@,
        Endpoint::GameChat => "gamechat"@,
        Endpoint::MapInfo => "map_info"@,
        Endpoint::State => "state"@,
        Endpoint::HudMsg => "hudmsg"@,
    }
}

pub fn endpoint_label(endpoint: Endpoint) -> (r: &'static str)
    ensures
        r@ == label_of(endpoint),
{
    match endpoint {
        Endpoint::MapObj => "map_obj",
        Endpoint::Indicators => "indicators",
        Endpoint::GameChat => "gamechat",
        Endpoint::MapInfo => "map_info",
        Endpoint::State => "state",
        Endpoint::HudMsg => "hudmsg",
    }
}

/// The width of the column of endpoint names.
pub const LABEL_WIDTH: usize = 12;

/// The line that tells whether an endpoint answers.
pub open spec fn status_text(probe: EndpointProbe) -> Seq<char> {
    match probe {
        EndpointProbe::Reached { endpoint, summary } => text::space_padded(
            label_of(endpoint),
            LABEL_WIDTH as nat,
        ) + " OK "@ + (match summary {
            Some(s) => s@,
            None => seq![],
        }),
        EndpointProbe::Failed { endpoint, error } => text::space_padded(
            label_of(endpoint),
            LABEL_WIDTH as nat,
        ) + " FAIL "@ + error@,
    }
}

pub fn status_line(probe: &EndpointProbe) -> (r: String)
    ensures
        r@ == status_text(*probe),
{
    match probe {
        EndpointProbe::Reached { endpoint, summary } => {
            let mut r: String = text::pad_with_spaces(
                endpoint_label(*endpoint).to_owned(),
                LABEL_WIDTH,
            );
            r.append(" OK ");
            match summary {
                Some(s) => {
                    r.append(s.as_str());
                },
                None => {
                    assert(r@ + Seq::<char>::empty() =~= r@);
                },
            }
            r
        },
        EndpointProbe::Failed { endpoint, error } => {
            let mut r: String = text::pad_with_spaces(
                endpoint_label(*endpoint).to_owned(),
                LABEL_WIDTH,
            );
            r.append(" FAIL ");
            r.append(error.as_str());
            r
        },
    }
}

/// What is asked for when an answer is printed as it comes.
pub fn dump_request(endpoint: DumpEndpoint) -> (r: &'static str)
    ensures
        r@ == (match endpoint {
            DumpEndpoint::Gamechat => "/gamechat?lastId=0"@,
            DumpEndpoint::Hudmsg => "/hudmsg?lastEvt=0&lastDmg=0"@,
        }),
{
    match endpoint {
        DumpEndpoint::Gamechat => "/gamechat?lastId=0",
        DumpEndpoint::Hudmsg => "/hudmsg?lastEvt=0&lastDmg=0",
    }
}

/// The settings of the automatic clips: those of the program, but for the delay
/// after an event where one is asked for.
pub fn auto_clip_config(
    config: &AppConfig,
    cooldown_seconds: u64,
    post_event_seconds: Option<u64>,
    include_history: bool,
) -> (r: AutoClipConfig)
    ensures
        r.cooldown.nanos == cooldown_seconds * NANOS_PER_SEC,
        r.post_event_delay.nanos == (match post_event_seconds {
            Some(seconds) => seconds,
            None => config.clip.post_event_seconds,
        }) * NANOS_PER_SEC,
        r.multi_kill_window.nanos == config.clip.multi_kill_window_seconds * NANOS_PER_SEC,
        r.include_history == include_history,
        r.triggers == config.triggers,
        r.capture == config.capture,
        r.cooldown.valid(),
        r.post_event_delay.valid(),
        r.multi_kill_window.valid(),
{
    let post_event: u64 = match post_event_seconds {
        Some(seconds) => seconds,
        None => config.clip.post_event_seconds,
    };
    AutoClipConfig {
        cooldown: Duration::from_secs(cooldown_seconds),
        post_event_delay: Duration::from_secs(post_event),
        multi_kill_window: Duration::from_secs(config.clip.multi_kill_window_seconds),
        include_history,
        triggers: config.triggers,
        capture: config.capture.clone(),
    }
}

/// How a message is printed: kills of the player are pointed out.
pub open spec fn message_text(
    from: Seq<char>,
    message: Seq<char>,
    player: Option<Seq<char>>,
) -> Seq<char> {
    let personal = player matches Some(name) && text::trim_of(name).len() > 0 && parser::event_in(
        message,
    ).killed_by(name);
    "["@ + from + "] "@ + message + (if personal {
        "  <-- personal kill"@
    } else {
        ""@
    })
}

pub fn print_message(from: &str, message: &str, player: Option<&str>) -> (r: String)
    ensures
        r@ == message_text(from@, message@, text::opt_str(player)),
{
    let event = parser::parse_gamechat_event(message);
    let mut r: String = text::join2("[", from);
    r.append("] ");
    r.append(message);
    if parser::is_personal_kill(&event, player) {
        r.append("  <-- personal kill");
    } else {
        r.append("");
    }
    r
}

/// How many messages are remembered while messages are watched.
pub const WATCHED_MESSAGES: usize = 1000;

/// The messages that have been printed or left out.
#[derive(Debug)]
pub struct WatchState {
    pub last_chat_id: u64,
    pub last_evt_msg_id: u64,
    pub last_dmg_msg_id: u64,
    pub seen: RecentMessageCache,
}

/// The messages that are known, and the lines that were printed.
pub ghost struct Watched {
    pub seen: Seq<Seq<char>>,
    pub lines: Seq<Seq<char>>,
}

/// A message is printed and remembered, unless it is known.
pub open spec fn watched_one(
    w: Watched,
    max_len: int,
    from: Seq<char>,
    player: Option<Seq<char>>,
    message: ChatView,
) -> Watched {
    let key = message.stable_key(from);
    if w.seen.contains(key) {
        w
    } else {
        Watched {
            seen: recent::remembered(w.seen, max_len, key),
            lines: w.lines.push(message_text(from, message.text, player)),
        }
    }
}

pub open spec fn watched_all(
    w: Watched,
    max_len: int,
    from: Seq<char>,
    player: Option<Seq<char>>,
    messages: Seq<ChatView>,
) -> Watched
    decreases messages.len(),
{
    if messages.len() == 0 {
        w
    } else {
        watched_one(
            watched_all(w, max_len, from, player, messages.drop_last()),
            max_len,
            from,
            player,
            messages.last(),
        )
    }
}

impl WatchState {
    pub open spec fn wf(self) -> bool {
        self.seen.wf()
    }

    pub open spec fn watched(self, lines: Seq<String>) -> Watched {
        Watched { seen: self.seen@, lines: text::texts(lines) }
    }

    pub fn new() -> (r: Self)
        ensures
            r.wf(),
            r.last_chat_id == 0,
            r.last_evt_msg_id == 0,
            r.last_dmg_msg_id == 0,
            r.seen.max_len == WATCHED_MESSAGES,
            r.seen@.len() == 0,
    {
        WatchState {
            last_chat_id: 0,
            last_evt_msg_id: 0,
            last_dmg_msg_id: 0,
            seen: RecentMessageCache::new(WATCHED_MESSAGES),
        }
    }

    /// Takes what is there at the start as known, without printing it. What
    /// could not be fetched is left out.
    pub fn skip_history(&mut self, chat: Option<&ChatPoll>, hud: Option<&HudPoll>)
        requires
            old(self).wf(),
        ensures
            final(self).wf(),
            final(self).seen.max_len == old(self).seen.max_len,
            final(self).last_chat_id == (match chat {
                Some(poll) => poll.next_last_id,
                None => old(self).last_chat_id,
            }),
            final(self).last_evt_msg_id == (match hud {
                Some(poll) => poll.next_last_evt_id,
                None => old(self).last_evt_msg_id,
            }),
            final(self).last_dmg_msg_id == (match hud {
                Some(poll) => poll.next_last_dmg_id,
                None => old(self).last_dmg_msg_id,
            }),
            final(self).seen@ == ({
                let max_len = old(self).seen.max_len as int;
                let after_chat = match chat {
                    Some(poll) => source::all_remembered(
                        old(self).seen@,
                        max_len,
                        "gamechat"@,
                        client::chats(poll.messages@),
                    ),
                    None => old(self).seen@,
                };
                match hud {
                    Some(poll) => source::all_remembered(
                        source::all_remembered(
                            after_chat,
                            max_len,
                            "hud"@,
                            client::chats(poll.events@),
                        ),
                        max_len,
                        "hud"@,
                        client::chats(poll.damage@),
                    ),
                    None => after_chat,
                }
            }),
    {
        if let Some(poll) = chat {
            self.last_chat_id = poll.next_last_id;
            source::remember_messages("gamechat", &poll.messages, &mut self.seen);
        }
        if let Some(poll) = hud {
            self.last_evt_msg_id = poll.next_last_evt_id;
            self.last_dmg_msg_id = poll.next_last_dmg_id;
            source::remember_messages("hud", &poll.events, &mut self.seen);
            source::remember_messages("hud", &poll.damage, &mut self.seen);
        }
    }

    fn take_messages(
        &mut self,
        from: &str,
        messages: &Vec<ChatMessage>,
        player: Option<&str>,
        lines: &mut Vec<String>,
    )
        requires
            old(self).wf(),
        ensures
            final(self).wf(),
            *final(self) == (WatchState { seen: final(self).seen, ..*old(self) }),
            final(self).seen.max_len == old(self).seen.max_len,
            final(self).watched(final(lines)@) == watched_all(
                old(self).watched(old(lines)@),
                old(self).seen.max_len as int,
                from@,
                text::opt_str(player),
                client::chats(messages@),
            ),
    {
        let ghost all = client::chats(messages@);
        let ghost start = self.watched(lines@);
        let ghost max_len = self.seen.max_len as int;
        let mut i: usize = 0;
        while i < messages.len()
            invariant
                i <= messages.len(),
                all == client::chats(messages@),
                self.wf(),
                *self == (WatchState { seen: self.seen, ..*old(self) }),
                self.seen.max_len == old(self).seen.max_len,
                max_len == self.seen.max_len,
                self.watched(lines@) == watched_all(
                    start,
                    max_len,
                    from@,
                    text::opt_str(player),
                    all.subrange(0, i as int),
                ),
            decreases messages.len() - i,
        {
            let ghost next = all.subrange(0, i + 1);
            assert(next.drop_last() == all.subrange(0, i as int));
            assert(next.last() == messages@[i as int]@);
            let key = messages[i].stable_key_with_prefix(from);
            if !self.seen.contains(key.as_str()) {
                let ghost before = text::texts(lines@);
                self.seen.insert(key);
                lines.push(print_message(from, messages[i].text.as_str(), player));
                assert(text::texts(lines@) =~= before.push(
                    message_text(from@, messages@[i as int].text@, text::opt_str(player)),
                ));
            }
            i = i + 1;
        }
        assert(all.subrange(0, all.len() as int) == all);
    }

    /// New messages of the chat; gives the lines to print.
    pub fn on_chat(&mut self, poll: &ChatPoll, player: Option<&str>) -> (r: Vec<String>)
        requires
            old(self).wf(),
        ensures
            final(self).wf(),
            *final(self) == (WatchState {
                last_chat_id: poll.next_last_id,
                seen: final(self).seen,
                ..*old(self)
            }),
            final(self).seen.max_len == old(self).seen.max_len,
            final(self).watched(r@) == watched_all(
                (Watched { seen: old(self).seen@, lines: seq![] }),
                old(self).seen.max_len as int,
                "gamechat"@,
                text::opt_str(player),
                client::chats(poll.messages@),
            ),
    {
        self.last_chat_id = poll.next_last_id;
        let mut lines: Vec<String> = Vec::new();
        assert(text::texts(lines@) =~= Seq::<Seq<char>>::empty());
        self.take_messages("gamechat", &poll.messages, player, &mut lines);
        lines
    }

    /// New lines of the display's log; gives the lines to print.
    pub fn on_hud(&mut self, poll: &HudPoll, player: Option<&str>) -> (r: Vec<String>)
        requires
            old(self).wf(),
        ensures
            final(self).wf(),
            *final(self) == (WatchState {
                last_evt_msg_id: poll.next_last_evt_id,
                last_dmg_msg_id: poll.next_last_dmg_id,
                seen: final(self).seen,
                ..*old(self)
            }),
            final(self).seen.max_len == old(self).seen.max_len,
            final(self).watched(r@) == watched_all(
                watched_all(
                    (Watched { seen: old(self).seen@, lines: seq![] }),
                    old(self).seen.max_len as int,
                    "hud"@,
                    text::opt_str(player),
                    client::chats(poll.events@),
                ),
                old(self).seen.max_len as int,
                "hud"@,
                text::opt_str(player),
                client::chats(poll.damage@),
            ),
    {
        self.last_evt_msg_id = poll.next_last_evt_id;
        self.last_dmg_msg_id = poll.next_last_dmg_id;
        let mut lines: Vec<String> = Vec::new();
        assert(text::texts(lines@) =~= Seq::<Seq<char>>::empty());
        self.take_messages("hud", &poll.events, player, &mut lines);
        self.take_messages("hud", &poll.damage, player, &mut lines);
        lines
    }
}

/// A message that has just been printed is not printed again when it comes
/// back at once.
pub proof fn lemma_message_is_printed_once(
    w: Watched,
    max_len: int,
    from: Seq<char>,
    player: Option<Seq<char>>,
    message: ChatView,
)
    requires
        max_len >= 1,
        w.seen.len() <= max_len,
    ensures
        watched_one(
            watched_one(w, max_len, from, player, message),
            max_len,
            from,
            player,
            message,
        ) == watched_one(w, max_len, from, player, message),
{
    if !w.seen.contains(message.stable_key(from)) {
        recent::lemma_remembered_is_known(w.seen, max_len, message.stable_key(from));
    }
}

/// Where the settings are created: where the user says, or at their usual
/// place.
pub fn config_init_path(
    wanted: Option<&str>,
    xdg_config_home: Option<&str>,
    home: Option<&str>,
) -> (r: String)
    ensures
        wanted matches Some(p) ==> r@ == p@,
        wanted is None ==> r@ == path::joined_path(
            path::joined_path(
                config::settings_dir(text::opt_str(xdg_config_home), text::opt_str(home)),
                "wt-clipper"@,
            ),
            "config.toml"@,
        ),
{
    match wanted {
        Some(p) => p.to_owned(),
        None => config::default_config_path(xdg_config_home, home),
    }
}

/// A message that is new is printed, with where it comes from and what it says, and
/// a kill of the player is pointed out.
pub proof fn lemma_new_message_is_printed(
    w: Watched,
    max_len: int,
    from: Seq<char>,
    player: Seq<char>,
    message: ChatView,
)
    requires
        !w.seen.contains(message.stable_key(from)),
        text::trim_of(player).len() > 0,
    ensures
        ({
            let after = watched_one(w, max_len, from, Some(player), message);
            let line = after.lines.last();
            let start = "["@ + from + "] "@ + message.text;
            &&& after.lines.len() == w.lines.len() + 1
            &&& after.lines.drop_last() == w.lines
            &&& text::has_prefix(line, start)
            &&& parser::event_in(message.text) matches EventView::TargetDestroyed {
                attacker: Some(attacker),
                action,
                ..
            } ==> (attacker == player && (action == "destroyed"@ || action == "shot down"@)
                ==> line == start + "  <-- personal kill"@)
            &&& !(parser::event_in(message.text) is TargetDestroyed) ==> line == start
        }),
{
    reveal_strlit("");
    let after = watched_one(w, max_len, from, Some(player), message);
    let line = after.lines.last();
    let start = "["@ + from + "] "@ + message.text;
    assert(after.lines.drop_last() =~= w.lines);
    assert(line.subrange(0, start.len() as int) =~= start);
    assert(start + ""@ =~= start);
}

}
