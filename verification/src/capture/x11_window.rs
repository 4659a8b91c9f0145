//! The windows that a window manager lists, and which of them is the game's.

use vstd::prelude::*;
use vstd::string::*;
use crate::capture::gpu_screen_recorder;
use crate::capture::x11;
use crate::path;
use crate::text;

verus! {

#[derive(Debug)]
pub struct X11WindowInfo {
    pub id: u32,
    pub id_hex: String,
    pub title: String,
    pub class_name: Option<String>,
    pub pid: Option<u32>,
    pub process_cmdline: Option<String>,
    pub score: i32,
}

impl Clone for X11WindowInfo {
    fn clone(&self) -> (r: Self)
        ensures
            r == *self,
    {
        X11WindowInfo {
            id: self.id,
            id_hex: self.id_hex.clone(),
            title: self.title.clone(),
            class_name: text::clone_opt_text(&self.class_name),
            pid: self.pid,
            process_cmdline: text::clone_opt_text(&self.process_cmdline),
            score: self.score,
        }
    }
}

/// The window `a` is preferred to the window `b`: it scores higher, or as high
/// with a lower identifier.
pub open spec fn preferred(a: X11WindowInfo, b: X11WindowInfo) -> bool {
    a.score > b.score || (a.score == b.score && a.id < b.id)
}

/// The first of the windows that no other is preferred to, if it scores.
pub open spec fn is_detected(windows: Seq<X11WindowInfo>, r: Option<X11WindowInfo>) -> bool {
    match r {
        Some(best) => exists|i: int|
            0 <= i < windows.len() && best == #[trigger] windows[i] && best.score > 0 && (
            forall|j: int| 0 <= j < windows.len() ==> !preferred(#[trigger] windows[j], best))
                && (forall|j: int| 0 <= j < i ==> preferred(best, #[trigger] windows[j])),
        None => forall|j: int| 0 <= j < windows.len() ==> (#[trigger] windows[j]).score <= 0,
    }
}

/// The game's window among the listed ones.
pub fn detect_war_thunder_window_x11(windows: &Vec<X11WindowInfo>) -> (r: Option<X11WindowInfo>)
    ensures
        is_detected(windows@, r),
{
    let mut best: Option<usize> = None;
    let mut i: usize = 0;
    while i < windows.len()
        invariant
            i <= windows.len(),
            match best {
                Some(k) => k < i && windows@[k as int].score > 0 && (forall|j: int|
                    0 <= j < i ==> !preferred(#[trigger] windows@[j], windows@[k as int])) && (
                forall|j: int|
                    0 <= j < k ==> preferred(windows@[k as int], #[trigger] windows@[j])),
                None => forall|j: int| 0 <= j < i ==> (#[trigger] windows@[j]).score <= 0,
            },
        decreases windows.len() - i,
    {
        let better: bool = match best {
            Some(k) => windows[i].score > windows[k].score || (windows[i].score == windows[k].score
                && windows[i].id < windows[k].id),
            None => windows[i].score > 0,
        };
        if better {
            best = Some(i);
        }
        i = i + 1;
    }
    match best {
        Some(k) => {
            let r = Some(windows[k].clone());
            assert(r->0 == windows@[k as int]);
            r
        },
        None => None,
    }
}

/// There is a display to ask.
pub fn has_display(display: Option<&str>) -> (r: bool)
    ensures
        r == (display is Some && text::trim_of(display->0@).len() > 0),
{
    match display {
        Some(value) => text::trim(value).unicode_len() > 0,
        None => false,
    }
}

/// A property without the zero characters and the white space at its ends; none
/// where nothing is left.
pub open spec fn trimmed_property(decoded: Seq<char>) -> Option<Seq<char>> {
    let value = text::trim_of(
        text::trim_end_char_of(text::trim_start_char_of(decoded, '\0'), '\0'),
    );
    if value.len() == 0 {
        None
    } else {
        Some(value)
    }
}

/// A property that has been decoded.
pub fn property_value(decoded: &str) -> (r: Option<String>)
    ensures
        text::opt_text(r) == trimmed_property(decoded@),
{
    let value = text::trim(text::trim_end_char(text::trim_start_char(decoded, '\0'), '\0'));
    if value.unicode_len() == 0 {
        None
    } else {
        Some(value.to_owned())
    }
}

/// The text in the bytes of a property; none where there are no bytes.
pub fn get_string_property(value: &[u8]) -> (r: Option<String>)
    ensures
        text::opt_text(r) == (if value@.len() == 0 {
            None
        } else {
            trimmed_property(text::text_in(value@))
        }),
{
    if value.len() == 0 {
        None
    } else {
        let decoded = text::from_utf8_lossy(value);
        property_value(decoded.as_str())
    }
}

/// The title of a window: the modern property, else the old one, else nothing.
pub fn get_window_title(net_wm_name: &[u8], wm_name: &[u8]) -> (r: String)
    ensures
        r@ == (if net_wm_name@.len() > 0 && trimmed_property(text::text_in(net_wm_name@)) is Some {
            trimmed_property(text::text_in(net_wm_name@))->0
        } else if wm_name@.len() > 0 && trimmed_property(text::text_in(wm_name@)) is Some {
            trimmed_property(text::text_in(wm_name@))->0
        } else {
            seq![]
        }),
{
    match get_string_property(net_wm_name) {
        Some(title) => title,
        None => match get_string_property(wm_name) {
            Some(title) => title,
            None => String::new(),
        },
    }
}

/// The class names between zero characters, without the blank ones, with one
/// space between them; none where nothing is left.
pub open spec fn class_of(raw: Seq<char>) -> Option<Seq<char>> {
    let class = text::joined(text::non_blank(text::split_of(raw, '\0')), " "@);
    if text::trim_of(class).len() == 0 {
        None
    } else {
        Some(class)
    }
}

/// The class of a window, from its trimmed property.
pub fn class_name(raw: &str) -> (r: Option<String>)
    ensures
        text::opt_text(r) == class_of(raw@),
{
    let class = text::join(&text::without_blank(&text::split(raw, '\0')), " ");
    if text::trim(class.as_str()).unicode_len() == 0 {
        None
    } else {
        Some(class)
    }
}

/// The class of a window, from the bytes of its property.
pub fn get_wm_class(value: &[u8]) -> (r: Option<String>)
    ensures
        text::opt_text(r) == (if value@.len() == 0 {
            None
        } else {
            match trimmed_property(text::text_in(value@)) {
                Some(raw) => class_of(raw),
                None => None,
            }
        }),
{
    match get_string_property(value) {
        Some(raw) => class_name(raw.as_str()),
        None => None,
    }
}

/// The last component of a path, or the whole text where there is none.
pub open spec fn short_name(arg: Seq<char>) -> Seq<char> {
    match path::file_name_of(arg) {
        Some(name) => name,
        None => arg,
    }
}

/// The arguments of a process by their short names, with one space between
/// them; none where nothing is left.
pub open spec fn short_cmdline(args: Seq<Seq<char>>) -> Option<Seq<char>> {
    let shown = text::joined(args.map_values(|a: Seq<char>| short_name(a)), " "@);
    if text::trim_of(shown).len() == 0 {
        None
    } else {
        Some(shown)
    }
}

pub fn short_command_line(args: &Vec<String>) -> (r: Option<String>)
    ensures
        text::opt_text(r) == short_cmdline(text::texts(args@)),
{
    let mut names: Vec<String> = Vec::new();
    let mut i: usize = 0;
    while i < args.len()
        invariant
            i <= args.len(),
            text::texts(names@) == text::texts(args@).subrange(0, i as int).map_values(
                |a: Seq<char>| short_name(a),
            ),
        decreases args.len() - i,
    {
        let ghost before = text::texts(names@);
        let name: String = match path::file_name(args[i].as_str()) {
            Some(name) => name,
            None => args[i].clone(),
        };
        names.push(name);
        assert(text::texts(names@) =~= before.push(short_name(args@[i as int]@)));
        assert(text::texts(args@).subrange(0, i + 1).map_values(|a: Seq<char>| short_name(a))
            =~= before.push(short_name(args@[i as int]@)));
        i = i + 1;
    }
    assert(text::texts(args@).subrange(0, args@.len() as int) == text::texts(args@));
    let shown = text::join(&names, " ");
    if text::trim(shown.as_str()).unicode_len() == 0 {
        None
    } else {
        Some(shown)
    }
}

/// The command line of a process as the kernel keeps it, in short.
pub fn read_process_cmdline(bytes: &[u8]) -> (r: Option<String>)
    ensures
        text::opt_text(r) == short_cmdline(
            gpu_screen_recorder::words_as_text(gpu_screen_recorder::cmdline_words(bytes@)),
        ),
{
    short_command_line(&gpu_screen_recorder::args_from_cmdline(bytes))
}

/// One of the three texts holds the pattern.
pub open spec fn names_pattern(
    title: Seq<char>,
    class: Seq<char>,
    cmdline: Seq<char>,
    pattern: Seq<char>,
) -> bool {
    text::occurs_in(title, pattern) || text::occurs_in(class, pattern) || text::occurs_in(
        cmdline,
        pattern,
    )
}

pub open spec fn points(b: bool, n: int) -> int {
    if b {
        n
    } else {
        0
    }
}

/// How much a window looks like the game's: points for what its title, its
/// class and its process have in common with the game, and more for each
/// pattern that any of them holds.
pub open spec fn detection_score(
    title: Seq<char>,
    class: Option<Seq<char>>,
    cmdline: Option<Seq<char>>,
) -> int {
    let t = text::ascii_lowered(title);
    let c = text::ascii_lowered(x11::or_empty(class));
    let p = text::ascii_lowered(x11::or_empty(cmdline));
    points(text::occurs_in(t, "war thunder"@) || text::occurs_in(t, "warthunder"@), 100) + points(
        text::occurs_in(c, "steam_app_236390"@) || text::occurs_in(c, "236390"@),
        80,
    ) + points(text::occurs_in(p, "aces.exe"@) || text::occurs_in(p, "aces"@), 70) + points(
        text::occurs_in(c, "aces.exe"@) || text::occurs_in(c, "aces"@),
        50,
    ) + points(t == "aces"@ || text::occurs_in(t, "aces.exe"@), 30) + points(
        names_pattern(t, c, p, "war thunder"@),
        10,
    ) + points(names_pattern(t, c, p, "warthunder"@), 10) + points(
        names_pattern(t, c, p, "aces.exe"@),
        10,
    ) + points(names_pattern(t, c, p, "aces"@), 10) + points(
        names_pattern(t, c, p, "steam_app_236390"@),
        10,
    ) + points(names_pattern(t, c, p, "236390"@), 10)
}

fn holds_pattern(title: &str, class: &str, cmdline: &str, pattern: &str) -> (r: i32)
    ensures
        r == points(names_pattern(title@, class@, cmdline@, pattern@), 10),
{
    if text::contains(title, pattern) || text::contains(class, pattern) || text::contains(
        cmdline,
        pattern,
    ) {
        10
    } else {
        0
    }
}

pub fn score_war_thunder_window(
    title: &str,
    class_name: Option<&str>,
    process_cmdline: Option<&str>,
) -> (r: i32)
    ensures
        r == detection_score(title@, text::opt_str(class_name), text::opt_str(process_cmdline)),
        0 <= r <= 390,
{
    let title = text::to_ascii_lowercase(title);
    let class = text::to_ascii_lowercase(x11::str_or_empty(class_name));
    let cmdline = text::to_ascii_lowercase(x11::str_or_empty(process_cmdline));
    let t = title.as_str();
    let c = class.as_str();
    let p = cmdline.as_str();
    let mut score: i32 = 0;
    if text::contains(t, "war thunder") || text::contains(t, "warthunder") {
        score = score + 100;
    }
    if text::contains(c, "steam_app_236390") || text::contains(c, "236390") {
        score = score + 80;
    }
    if text::contains(p, "aces.exe") || text::contains(p, "aces") {
        score = score + 70;
    }
    if text::contains(c, "aces.exe") || text::contains(c, "aces") {
        score = score + 50;
    }
    if text::same(t, "aces") || text::contains(t, "aces.exe") {
        score = score + 30;
    }
    score + holds_pattern(t, c, p, "war thunder") + holds_pattern(t, c, p, "warthunder")
        + holds_pattern(t, c, p, "aces.exe") + holds_pattern(t, c, p, "aces") + holds_pattern(
        t,
        c,
        p,
        "steam_app_236390",
    ) + holds_pattern(t, c, p, "236390")
}

/// A listed window with its score.
pub fn window_info(
    id: u32,
    title: String,
    class_name: Option<String>,
    pid: Option<u32>,
    process_cmdline: Option<String>,
) -> (r: X11WindowInfo)
    ensures
        r.id == id,
        r.id_hex@ == "0x"@ + text::hexadecimal(id as nat),
        r.title == title,
        r.class_name == class_name,
        r.pid == pid,
        r.process_cmdline == process_cmdline,
        r.score == detection_score(
            title@,
            text::opt_text(class_name),
            text::opt_text(process_cmdline),
        ),
{
    let class: Option<&str> = match &class_name {
        Some(s) => Some(s.as_str()),
        None => None,
    };
    let cmdline: Option<&str> = match &process_cmdline {
        Some(s) => Some(s.as_str()),
        None => None,
    };
    let score: i32 = score_war_thunder_window(title.as_str(), class, cmdline);
    X11WindowInfo {
        id,
        id_hex: text::join2("0x", text::hex_text(id as u64).as_str()),
        title,
        class_name,
        pid,
        process_cmdline,
        score,
    }
}

/// The detected window is the same whatever order the windows are listed in,
/// as long as no two of them have one identifier.
pub proof fn lemma_detection_ignores_order(
    windows: Seq<X11WindowInfo>,
    others: Seq<X11WindowInfo>,
    r: Option<X11WindowInfo>,
    s: Option<X11WindowInfo>,
)
    requires
        is_detected(windows, r),
        is_detected(others, s),
        forall|i: int| 0 <= i < windows.len() ==> others.contains(#[trigger] windows[i]),
        forall|i: int| 0 <= i < others.len() ==> windows.contains(#[trigger] others[i]),
        forall|i: int, j: int|
            0 <= i < windows.len() && 0 <= j < windows.len() && (#[trigger] windows[i]).id == (
            #[trigger] windows[j]).id ==> windows[i] == windows[j],
    ensures
        r == s,
{
    if let Some(a) = r {
        let i = choose|i: int| 0 <= i < windows.len() && a == windows[i];
        assert(others.contains(windows[i]));
        let k = choose|k: int| 0 <= k < others.len() && others[k] == a;
        assert(others[k].score > 0);
        if let Some(b) = s {
            let m = choose|m: int| 0 <= m < others.len() && b == others[m];
            assert(windows.contains(others[m]));
            let n = choose|n: int| 0 <= n < windows.len() && windows[n] == b;
            assert(!preferred(windows[n], a));
            assert(!preferred(others[k], b));
            assert(a.score == b.score && a.id == b.id);
            assert(windows[i].id == windows[n].id);
        }
    } else if let Some(b) = s {
        let m = choose|m: int| 0 <= m < others.len() && b == others[m];
        assert(windows.contains(others[m]));
        let n = choose|n: int| 0 <= n < windows.len() && windows[n] == b;
        assert(windows[n].score > 0);
    }
}

/// A window of the game looks like it: it scores by its title, its class or its
/// process.
pub proof fn lemma_game_window_scores(
    title: Seq<char>,
    class: Option<Seq<char>>,
    cmdline: Option<Seq<char>>,
)
    ensures
        text::occurs_in(text::ascii_lowered(title), "war thunder"@) || text::occurs_in(
            text::ascii_lowered(title),
            "warthunder"@,
        ) ==> detection_score(title, class, cmdline) >= 110,
        class matches Some(c) ==> (text::occurs_in(text::ascii_lowered(c), "236390"@)
            ==> detection_score(title, class, cmdline) >= 90),
        cmdline matches Some(p) ==> (text::occurs_in(text::ascii_lowered(p), "aces"@)
            ==> detection_score(title, class, cmdline) >= 80),
        class matches Some(c) ==> (text::occurs_in(text::ascii_lowered(c), "aces"@)
            ==> detection_score(title, class, cmdline) >= 60),
        detection_score(title, class, cmdline) >= 0,
{
}

/// A window that has nothing of the game in its title, its class and its process
/// does not score, and what it lacks in the shorter words it lacks in the longer.
pub proof fn lemma_other_window_does_not_score(
    title: Seq<char>,
    class: Option<Seq<char>>,
    cmdline: Option<Seq<char>>,
)
    requires
        ({
            let t = text::ascii_lowered(title);
            let c = text::ascii_lowered(x11::or_empty(class));
            let p = text::ascii_lowered(x11::or_empty(cmdline));
            &&& !text::occurs_in(t, "war thunder"@) && !text::occurs_in(c, "war thunder"@)
                && !text::occurs_in(p, "war thunder"@)
            &&& !text::occurs_in(t, "warthunder"@) && !text::occurs_in(c, "warthunder"@)
                && !text::occurs_in(p, "warthunder"@)
            &&& !text::occurs_in(t, "aces"@) && !text::occurs_in(c, "aces"@) && !text::occurs_in(
                p,
                "aces"@,
            )
            &&& !text::occurs_in(t, "236390"@) && !text::occurs_in(c, "236390"@)
                && !text::occurs_in(p, "236390"@)
        }),
    ensures
        detection_score(title, class, cmdline) == 0,
{
    let t = text::ascii_lowered(title);
    let c = text::ascii_lowered(x11::or_empty(class));
    let p = text::ascii_lowered(x11::or_empty(cmdline));
    reveal_strlit("aces");
    reveal_strlit("aces.exe");
    reveal_strlit("236390");
    reveal_strlit("steam_app_236390");
    assert("aces.exe"@.subrange(0, 4) =~= "aces"@);
    assert(text::matches_at("aces.exe"@, "aces"@, 0));
    assert("steam_app_236390"@.subrange(10, 16) =~= "236390"@);
    assert(text::matches_at("steam_app_236390"@, "236390"@, 10));
    assert forall|s: Seq<char>| #[trigger] text::occurs_in(s, "aces.exe"@) implies text::occurs_in(
        s,
        "aces"@,
    ) by {
        text::lemma_occurs_within(s, "aces.exe"@, "aces"@);
    }
    assert forall|s: Seq<char>| #[trigger]
        text::occurs_in(s, "steam_app_236390"@) implies text::occurs_in(s, "236390"@) by {
        text::lemma_occurs_within(s, "steam_app_236390"@, "236390"@);
    }
    if t == "aces"@ {
        assert(t.subrange(0, 4) =~= "aces"@);
        assert(text::matches_at(t, "aces"@, 0));
    }
}

/// The window that scores highest is the game's, and none where none scores.
pub proof fn lemma_best_window_is_detected(windows: Seq<X11WindowInfo>, r: Option<X11WindowInfo>)
    requires
        is_detected(windows, r),
    ensures
        r matches Some(best) ==> windows.contains(best) && best.score > 0 && forall|i: int|
            0 <= i < windows.len() ==> (#[trigger] windows[i]).score <= best.score && (
            windows[i].score == best.score ==> windows[i].id >= best.id),
        r is None ==> forall|i: int|
            0 <= i < windows.len() ==> (#[trigger] windows[i]).score <= 0,
{
    if let Some(best) = r {
        let i = choose|i: int| 0 <= i < windows.len() && best == #[trigger] windows[i];
        assert(windows.contains(best));
        assert forall|j: int| 0 <= j < windows.len() implies (#[trigger] windows[j]).score
            <= best.score && (windows[j].score == best.score ==> windows[j].id >= best.id) by {
            assert(!preferred(windows[j], best));
        }
    }
}

}
