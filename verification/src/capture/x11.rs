//! The game's window among the windows of an X11 display.

use vstd::prelude::*;
use vstd::string::*;
use crate::cli::CaptureSource;
use crate::text;

verus! {

/// A window that can be captured.
#[derive(Debug)]
pub struct X11WindowSelection {
    pub id: u32,
    pub title: Option<String>,
    pub class: Option<String>,
}

impl Clone for X11WindowSelection {
    fn clone(&self) -> (r: Self)
        ensures
            r == *self,
    {
        X11WindowSelection {
            id: self.id,
            title: text::clone_opt_text(&self.title),
            class: text::clone_opt_text(&self.class),
        }
    }
}

/// Why there is no window to capture.
#[derive(Debug)]
pub enum X11WindowError {
    /// The identifier that the user gave is no hexadecimal number.
    NotHexadecimal,
    /// The identifier that the user gave is no decimal number.
    NotDecimal,
    /// The game has no window.
    NotFound,
}

impl X11WindowError {
    pub open spec fn text_of(self) -> Seq<char> {
        match self {
            X11WindowError::NotHexadecimal => "failed to parse hex X11 window id"@,
            X11WindowError::NotDecimal => "failed to parse decimal X11 window id"@,
            X11WindowError::NotFound =>
                "War Thunder window not found on X11. Launch War Thunder first, or set WT_CLIPPER_X11_WINDOW_ID to the window id."@,
        }
    }

    pub fn message(&self) -> (r: &'static str)
        ensures
            r@ == self.text_of(),
    {
        match self {
            X11WindowError::NotHexadecimal => "failed to parse hex X11 window id",
            X11WindowError::NotDecimal => "failed to parse decimal X11 window id",
            X11WindowError::NotFound =>
                "War Thunder window not found on X11. Launch War Thunder first, or set WT_CLIPPER_X11_WINDOW_ID to the window id.",
        }
    }
}

/// What is to be captured, as far as it is known before the display is asked.
#[derive(Debug)]
pub enum WindowChoice {
    /// The whole screen.
    Screen,
    /// This window.
    Window(X11WindowSelection),
    /// The game's window, which has to be looked for.
    Search,
}

/// What follows a `0x` or `0X` in front.
pub open spec fn behind_hex_mark(s: Seq<char>) -> Option<Seq<char>> {
    match text::strip_prefix_of(s, "0x"@) {
        Some(rest) => Some(rest),
        None => text::strip_prefix_of(s, "0X"@),
    }
}

/// A window's identifier: a hexadecimal number behind `0x`, else a decimal one.
pub open spec fn window_id_of(value: Seq<char>) -> Result<nat, X11WindowError> {
    let trimmed = text::trim_of(value);
    match behind_hex_mark(trimmed) {
        Some(hex) => match text::parse_hexadecimal(hex, u32::MAX as nat) {
            Some(id) => Ok(id),
            None => Err(X11WindowError::NotHexadecimal),
        },
        None => match text::parse_unsigned(trimmed, u32::MAX as nat) {
            Some(id) => Ok(id),
            None => Err(X11WindowError::NotDecimal),
        },
    }
}

pub fn parse_x11_window_id(value: &str) -> (r: Result<u32, X11WindowError>)
    ensures
        match r {
            Ok(id) => window_id_of(value@) == Ok::<nat, X11WindowError>(id as nat),
            Err(error) => window_id_of(value@) == Err::<nat, X11WindowError>(error),
        },
{
    let trimmed = text::trim(value);
    let hex: Option<&str> = match text::strip_prefix(trimmed, "0x") {
        Some(rest) => Some(rest),
        None => text::strip_prefix(trimmed, "0X"),
    };
    match hex {
        Some(hex) => match text::parse_hex_u32(hex) {
            Some(id) => Ok(id),
            None => Err(X11WindowError::NotHexadecimal),
        },
        None => match text::parse_u32(trimmed) {
            Some(id) => Ok(id),
            None => Err(X11WindowError::NotDecimal),
        },
    }
}

/// What is to be captured. `raw_id` is the value of `WT_CLIPPER_X11_WINDOW_ID`,
/// which names a window without a search.
pub fn resolve_x11_window_id(source: CaptureSource, raw_id: Option<&str>) -> (r: Result<
    WindowChoice,
    X11WindowError,
>)
    ensures
        source is Screen ==> r matches Ok(WindowChoice::Screen),
        source is Window && raw_id is None ==> r matches Ok(WindowChoice::Search),
        source is Window && raw_id is Some ==> match window_id_of(raw_id->0@) {
            Ok(id) => r matches Ok(WindowChoice::Window(window)) && window.id == id
                && text::opt_text(window.title) == Some("WT_CLIPPER_X11_WINDOW_ID"@)
                && window.class is None,
            Err(error) => r == Err::<WindowChoice, X11WindowError>(error),
        },
{
    match source {
        CaptureSource::Screen => Ok(WindowChoice::Screen),
        CaptureSource::Window => match raw_id {
            Some(raw_id) => match parse_x11_window_id(raw_id) {
                Ok(id) => Ok(
                    WindowChoice::Window(
                        X11WindowSelection {
                            id,
                            title: Some("WT_CLIPPER_X11_WINDOW_ID".to_owned()),
                            class: None,
                        },
                    ),
                ),
                Err(error) => Err(error),
            },
            None => Ok(WindowChoice::Search),
        },
    }
}

/// The parts of a window property between zero characters, trimmed, without the
/// empty ones, and with one space between them; none where nothing is left.
pub open spec fn property_text(decoded: Seq<char>) -> Option<Seq<char>> {
    let shown = text::joined(
        text::non_blank(text::trimmed(text::split_of(decoded, '\0'))),
        " "@,
    );
    if shown.len() == 0 {
        None
    } else {
        Some(shown)
    }
}

/// The text of a window property that has been decoded.
pub fn x11_text(decoded: &str) -> (r: Option<String>)
    ensures
        text::opt_text(r) == property_text(decoded@),
{
    let parts = text::without_blank(&text::trim_each(&text::split(decoded, '\0')));
    let shown = text::join(&parts, " ");
    if shown.as_str().unicode_len() == 0 {
        None
    } else {
        Some(shown)
    }
}

/// The text in the bytes of a window property.
pub fn decode_x11_text(value: &[u8]) -> (r: Option<String>)
    ensures
        text::opt_text(r) == property_text(text::text_in(value@)),
{
    let decoded = text::from_utf8_lossy(value);
    x11_text(decoded.as_str())
}

pub open spec fn or_empty(o: Option<Seq<char>>) -> Seq<char> {
    match o {
        Some(s) => s,
        None => seq![],
    }
}

/// How much a window looks like the game's, by its title and its class.
pub open spec fn window_score(title: Option<Seq<char>>, class: Option<Seq<char>>) -> u8 {
    let t = text::ascii_lowered(or_empty(title));
    let c = text::ascii_lowered(or_empty(class));
    let both = t + " "@ + c;
    if text::occurs_in(t, "war thunder"@) {
        100
    } else if text::occurs_in(c, "war thunder"@) {
        95
    } else if text::occurs_in(c, "aces.exe"@) || text::occurs_in(c, "aces"@) {
        90
    } else if text::occurs_in(both, "gaijin"@) && text::occurs_in(both, "war"@) {
        80
    } else {
        0
    }
}

pub fn war_thunder_window_score(title: Option<&str>, class: Option<&str>) -> (r: u8)
    ensures
        r == window_score(text::opt_str(title), text::opt_str(class)),
{
    let t = text::to_ascii_lowercase(str_or_empty(title));
    let c = text::to_ascii_lowercase(str_or_empty(class));
    let mut both: String = text::join2(t.as_str(), " ");
    both.append(c.as_str());
    if text::contains(t.as_str(), "war thunder") {
        100
    } else if text::contains(c.as_str(), "war thunder") {
        95
    } else if text::contains(c.as_str(), "aces.exe") || text::contains(c.as_str(), "aces") {
        90
    } else if text::contains(both.as_str(), "gaijin") && text::contains(both.as_str(), "war") {
        80
    } else {
        0
    }
}

pub(crate) fn str_or_empty(o: Option<&str>) -> (r: &str)
    ensures
        r@ == or_empty(text::opt_str(o)),
{
    match o {
        Some(s) => s,
        None => {
            proof {
                reveal_strlit("");
                assert(""@ =~= Seq::<char>::empty());
            }
            ""
        },
    }
}

pub open spec fn score_of(window: X11WindowSelection) -> u8 {
    window_score(text::opt_text(window.title), text::opt_text(window.class))
}

/// The first window of the highest score; none where no window scores.
pub open spec fn is_best(
    windows: Seq<X11WindowSelection>,
    r: Option<X11WindowSelection>,
) -> bool {
    match r {
        Some(best) => exists|i: int|
            0 <= i < windows.len() && best == #[trigger] windows[i] && score_of(best) > 0 && (
            forall|j: int|
                0 <= j < windows.len() ==> score_of(#[trigger] windows[j]) <= score_of(best))
                && (forall|j: int|
                0 <= j < i ==> score_of(#[trigger] windows[j]) < score_of(best)),
        None => forall|j: int|
            0 <= j < windows.len() ==> score_of(#[trigger] windows[j]) == 0,
    }
}

fn selection_score(window: &X11WindowSelection) -> (r: u8)
    ensures
        r == score_of(*window),
{
    let title: Option<&str> = match &window.title {
        Some(s) => Some(s.as_str()),
        None => None,
    };
    let class: Option<&str> = match &window.class {
        Some(s) => Some(s.as_str()),
        None => None,
    };
    war_thunder_window_score(title, class)
}

/// The game's window among all windows of the display.
pub fn find_war_thunder_window(windows: &Vec<X11WindowSelection>) -> (r: Option<
    X11WindowSelection,
>)
    ensures
        is_best(windows@, r),
{
    let mut best: Option<usize> = None;
    let mut best_score: u8 = 0;
    let mut i: usize = 0;
    while i < windows.len()
        invariant
            i <= windows.len(),
            forall|j: int| 0 <= j < i ==> score_of(#[trigger] windows@[j]) <= best_score,
            match best {
                Some(k) => k < i && best_score > 0 && score_of(windows@[k as int]) == best_score
                    && (forall|j: int|
                    0 <= j < k ==> score_of(#[trigger] windows@[j]) < best_score),
                None => best_score == 0,
            },
        decreases windows.len() - i,
    {
        let score: u8 = selection_score(&windows[i]);
        if score > best_score {
            best_score = score;
            best = Some(i);
        }
        i = i + 1;
    }
    match best {
        Some(k) => {
            let r = Some(windows[k].clone());
            assert(r->0 == windows@[k as int]);
            r
        },
        None => None,
    }
}

/// The window that a search has found.
pub fn searched_window(found: Option<X11WindowSelection>) -> (r: Result<
    X11WindowSelection,
    X11WindowError,
>)
    ensures
        match found {
            Some(window) => r == Ok::<X11WindowSelection, X11WindowError>(window),
            None => r matches Err(X11WindowError::NotFound),
        },
{
    match found {
        Some(window) => Ok(window),
        None => Err(X11WindowError::NotFound),
    }
}

/// A window that has the game's name in its title scores highest, and one that has
/// nothing of the game scores nothing.
pub proof fn lemma_title_scores_highest(title: Option<Seq<char>>, class: Option<Seq<char>>)
    ensures
        window_score(title, class) <= 100,
        title matches Some(t) ==> (text::occurs_in(text::ascii_lowered(t), "war thunder"@)
            ==> window_score(title, class) == 100),
        class matches Some(c) ==> (text::occurs_in(text::ascii_lowered(c), "war thunder"@)
            ==> window_score(title, class) >= 95),
        class matches Some(c) ==> (text::occurs_in(text::ascii_lowered(c), "aces"@)
            ==> window_score(title, class) >= 90),
        window_score(title, class) > 0 ==> {
            let t = text::ascii_lowered(or_empty(title));
            let c = text::ascii_lowered(or_empty(class));
            ||| text::occurs_in(t, "war thunder"@)
            ||| text::occurs_in(c, "war thunder"@)
            ||| text::occurs_in(c, "aces"@)
            ||| text::occurs_in(t + " "@ + c, "gaijin"@)
        },
{
    let c = text::ascii_lowered(or_empty(class));
    if text::occurs_in(c, "aces.exe"@) {
        reveal_strlit("aces");
        reveal_strlit("aces.exe");
        assert("aces.exe"@.subrange(0, 4) =~= "aces"@);
        assert(text::matches_at("aces.exe"@, "aces"@, 0));
        text::lemma_occurs_within(c, "aces.exe"@, "aces"@);
    }
}

/// The window that is taken for the game's scores at least as high as any other, and
/// none is taken where none scores.
pub proof fn lemma_best_window_scores_highest(
    windows: Seq<X11WindowSelection>,
    r: Option<X11WindowSelection>,
)
    requires
        is_best(windows, r),
    ensures
        r matches Some(best) ==> windows.contains(best) && window_score(
            text::opt_text(best.title),
            text::opt_text(best.class),
        ) > 0 && forall|i: int|
            0 <= i < windows.len() ==> window_score(
                text::opt_text((#[trigger] windows[i]).title),
                text::opt_text(windows[i].class),
            ) <= window_score(text::opt_text(best.title), text::opt_text(best.class)),
        r is None ==> forall|i: int|
            0 <= i < windows.len() ==> window_score(
                text::opt_text((#[trigger] windows[i]).title),
                text::opt_text(windows[i].class),
            ) == 0,
{
    if let Some(best) = r {
        let i = choose|i: int| 0 <= i < windows.len() && best == #[trigger] windows[i];
        assert(windows.contains(best));
        assert forall|j: int| 0 <= j < windows.len() implies window_score(
            text::opt_text((#[trigger] windows[j]).title),
            text::opt_text(windows[j].class),
        ) <= window_score(text::opt_text(best.title), text::opt_text(best.class)) by {
            assert(score_of(windows[j]) <= score_of(best));
        }
    } else {
        assert forall|j: int| 0 <= j < windows.len() implies window_score(
            text::opt_text((#[trigger] windows[j]).title),
            text::opt_text(windows[j].class),
        ) == 0 by {
            assert(score_of(windows[j]) == 0);
        }
    }
}

/// A window's number is read from its decimal notation.
pub proof fn lemma_window_number_is_read(id: u32)
    ensures
        window_id_of(text::decimal(id as nat)) == Ok::<nat, X11WindowError>(id as nat),
{
    let s = text::decimal(id as nat);
    text::lemma_decimal_value(id as nat);
    text::lemma_parse_decimal(id as nat, u32::MAX as nat);
    assert(text::is_digit(s[0]));
    assert(text::is_digit(s[s.len() - 1]));
    assert(!text::is_space(s[0]) && !text::is_space(s[s.len() - 1]));
    text::lemma_trim_is(s, 0, s.len() as int);
    assert(s.subrange(0, s.len() as int) =~= s);
    reveal_strlit("0x");
    reveal_strlit("0X");
    if text::has_prefix(s, "0x"@) {
        assert(s.subrange(0, 2)[1] == 'x');
        assert(text::is_digit(s[1]));
    }
    if text::has_prefix(s, "0X"@) {
        assert(s.subrange(0, 2)[1] == 'X');
        assert(text::is_digit(s[1]));
    }
}

}
