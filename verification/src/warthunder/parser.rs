//! Reading the lines of the battle log.

use vstd::prelude::*;
use vstd::string::*;
use crate::text;
use crate::warthunder::events::{EventView, WarThunderEvent};

verus! {

/// `value` where it is not empty.
pub open spec fn non_empty(value: Seq<char>) -> Option<Seq<char>> {
    if value.len() == 0 {
        None
    } else {
        Some(value)
    }
}

fn non_empty_string(value: &str) -> (r: Option<String>)
    ensures
        text::opt_text(r) == non_empty(value@),
{
    if value.is_empty() {
        None
    } else {
        Some(value.to_owned())
    }
}

/// The actions that the log names between attacker and target.
pub open spec fn combat_actions_listed() -> Seq<Seq<char>> {
    seq![
        "critically damaged"@,
        "severely damaged"@,
        "has crashed"@,
        "destroyed"@,
        "shot down"@,
        "set afire"@,
    ]
}

fn combat_actions() -> (r: Vec<&'static str>)
    ensures
        text::strs(r@) == combat_actions_listed(),
{
    let mut r: Vec<&'static str> = Vec::new();
    r.push("critically damaged");
    r.push("severely damaged");
    r.push("has crashed");
    r.push("destroyed");
    r.push("shot down");
    r.push("set afire");
    assert(text::strs(r@) =~= combat_actions_listed());
    r
}

/// Where `action` starts in the line: behind the first space that it follows,
/// if what stands before it ends in a closing parenthesis and the action ends
/// with its word.
pub open spec fn action_start(raw: Seq<char>, action: Seq<char>) -> Option<int> {
    match text::find_in(raw, " "@ + action) {
        Some(space) => {
            let start = space + 1;
            let end = start + action.len();
            if text::has_suffix(text::trim_of(raw.subrange(0, start)), ")"@) && (end >= raw.len()
                || text::is_space(raw[end])) {
                Some(start)
            } else {
                None
            }
        },
        None => None,
    }
}

/// The action that starts first in the line, and where.
pub open spec fn earliest_action(raw: Seq<char>, actions: Seq<Seq<char>>) -> Option<
    (Seq<char>, int),
>
    decreases actions.len(),
{
    if actions.len() == 0 {
        None
    } else {
        let before = earliest_action(raw, actions.drop_last());
        match action_start(raw, actions.last()) {
            Some(start) => if before matches Some(found) && found.1 <= start {
                before
            } else {
                Some((actions.last(), start))
            },
            None => before,
        }
    }
}

/// Where `action` starts in `raw`.
fn find_action(raw: &str, action: &str) -> (r: Option<usize>)
    ensures
        match r {
            Some(start) => action_start(raw@, action@) == Some(start as int) && start
                + action@.len() <= raw@.len() && start >= 1,
            None => action_start(raw@, action@) is None,
        },
{
    let needle = text::join2(" ", action);
    match text::find(raw, needle.as_str()) {
        Some(space) => {
            let len: usize = raw.unicode_len();
            let action_len: usize = action.unicode_len();
            proof {
                reveal_strlit(" ");
                text::lemma_find_in(raw@, needle@);
            }
            let start: usize = space + 1;
            let end: usize = start + action_len;
            let before = text::trim(raw.substring_char(0, start));
            if text::ends_with(before, ")") && (end >= len || text::is_whitespace(
                raw.get_char(end),
            )) {
                Some(start)
            } else {
                None
            }
        },
        None => None,
    }
}

fn find_combat_action(raw: &str) -> (r: Option<(&'static str, usize)>)
    ensures
        match r {
            Some(found) => earliest_action(raw@, combat_actions_listed()) == Some(
                (found.0@, found.1 as int),
            ) && found.1 + found.0@.len() <= raw@.len(),
            None => earliest_action(raw@, combat_actions_listed()) is None,
        },
{
    let actions = combat_actions();
    let ghost listed = text::strs(actions@);
    let mut best: Option<(&'static str, usize)> = None;
    let mut i: usize = 0;
    while i < actions.len()
        invariant
            i <= actions.len(),
            listed == text::strs(actions@),
            match best {
                Some(found) => earliest_action(raw@, listed.subrange(0, i as int)) == Some(
                    (found.0@, found.1 as int),
                ) && found.1 + found.0@.len() <= raw@.len(),
                None => earliest_action(raw@, listed.subrange(0, i as int)) is None,
            },
        decreases actions.len() - i,
    {
        proof {
            assert(listed.subrange(0, i + 1).drop_last() == listed.subrange(0, i as int));
            assert(listed.subrange(0, i + 1).last() == actions@[i as int]@);
        }
        match find_action(raw, actions[i]) {
            Some(start) => {
                let keep: bool = match best {
                    Some(found) => found.1 <= start,
                    None => false,
                };
                if !keep {
                    best = Some((actions[i], start));
                }
            },
            None => {},
        }
        i = i + 1;
    }
    assert(listed.subrange(0, listed.len() as int) == listed);
    best
}

/// The opening parenthesis that the last closing one of `s[..end]` answers,
/// with `depth` closing parentheses already open behind `end`.
pub open spec fn matching_open(s: Seq<char>, end: int, depth: int) -> Option<int>
    decreases end,
{
    if end <= 0 {
        None
    } else if s[end - 1] == ')' {
        matching_open(s, end - 1, depth + 1)
    } else if s[end - 1] == '(' && depth == 1 {
        Some(end - 1)
    } else if s[end - 1] == '(' && depth > 1 {
        matching_open(s, end - 1, depth - 1)
    } else {
        matching_open(s, end - 1, depth)
    }
}

/// Who acted, and in which vehicle: the vehicle stands in parentheses, behind
/// a space, at the end.
pub open spec fn attacker_and_vehicle(part: Seq<char>) -> (Option<Seq<char>>, Option<Seq<char>>) {
    let input = text::trim_of(part);
    let whole = (non_empty(input), None::<Seq<char>>);
    if !text::has_suffix(input, ")"@) {
        whole
    } else {
        match matching_open(input, input.len() as int, 0) {
            Some(open) => if open == 0 || input[open - 1] != ' ' {
                whole
            } else {
                (
                    non_empty(text::trim_of(input.subrange(0, open))),
                    non_empty(text::trim_of(input.subrange(open + 1, input.len() - 1))),
                )
            },
            None => whole,
        }
    }
}

proof fn lemma_matching_open(s: Seq<char>, end: int, depth: int)
    requires
        0 <= end <= s.len(),
    ensures
        matching_open(s, end, depth) matches Some(open) ==> 0 <= open < end && s[open] == '(',
    decreases end,
{
    if end > 0 {
        if s[end - 1] == ')' {
            lemma_matching_open(s, end - 1, depth + 1);
        } else if s[end - 1] == '(' && depth == 1 {
        } else if s[end - 1] == '(' && depth > 1 {
            lemma_matching_open(s, end - 1, depth - 1);
        } else {
            lemma_matching_open(s, end - 1, depth);
        }
    }
}

fn find_matching_open(v: &Vec<char>) -> (r: Option<usize>)
    ensures
        match r {
            Some(open) => matching_open(v@, v@.len() as int, 0) == Some(open as int) && open
                < v@.len(),
            None => matching_open(v@, v@.len() as int, 0) is None,
        },
{
    let mut end: usize = v.len();
    let mut depth: usize = 0;
    while end > 0
        invariant
            end <= v.len(),
            depth <= v.len() - end,
            matching_open(v@, v@.len() as int, 0) == matching_open(v@, end as int, depth as int),
        decreases end,
    {
        let c: char = v[end - 1];
        if c == ')' {
            depth = depth + 1;
        } else if c == '(' {
            if depth == 1 {
                return Some(end - 1);
            }
            if depth > 1 {
                depth = depth - 1;
            }
        }
        end = end - 1;
    }
    None
}

fn parse_attacker_and_vehicle(part: &str) -> (r: (Option<String>, Option<String>))
    ensures
        (text::opt_text(r.0), text::opt_text(r.1)) == attacker_and_vehicle(part@),
{
    let input = text::trim(part);
    if !text::ends_with(input, ")") {
        return (non_empty_string(input), None);
    }
    let v = text::chars_of(input);
    match find_matching_open(&v) {
        Some(open) => {
            if open == 0 || v[open - 1] != ' ' {
                return (non_empty_string(input), None);
            }
            proof {
                lemma_matching_open(v@, v@.len() as int, 0);
                reveal_strlit(")");
                let n = input@.len();
                assert(input@.subrange(n - 1, n as int)[0] == ")"@[0]);
                assert(v@[n - 1] == ')');
                assert(open < n - 1);
            }
            let attacker = text::trim(input.substring_char(0, open));
            let vehicle = text::trim(input.substring_char(open + 1, v.len() - 1));
            (non_empty_string(attacker), non_empty_string(vehicle))
        },
        None => (non_empty_string(input), None),
    }
}

/// A line that says who did what to whom.
pub open spec fn combat_event(raw: Seq<char>) -> Option<EventView> {
    match earliest_action(raw, combat_actions_listed()) {
        Some(found) => {
            let attacker_part = text::trim_of(raw.subrange(0, found.1));
            let target = text::trim_of(
                raw.subrange(found.1 + found.0.len(), raw.len() as int),
            );
            if attacker_part.len() == 0 || (target.len() == 0 && found.0 != "has crashed"@) {
                None
            } else {
                let who = attacker_and_vehicle(attacker_part);
                Some(
                    EventView::TargetDestroyed {
                        attacker: who.0,
                        action: found.0,
                        vehicle: who.1,
                        target: non_empty(target),
                        raw,
                    },
                )
            }
        },
        None => None,
    }
}

fn parse_combat_action_message(raw: &str) -> (r: Option<WarThunderEvent>)
    ensures
        match r {
            Some(event) => combat_event(raw@) == Some(event@),
            None => combat_event(raw@) is None,
        },
{
    let (action, start): (&'static str, usize) = match find_combat_action(raw) {
        Some(found) => found,
        None => {
            return None;
        },
    };
    let len: usize = raw.unicode_len();
    let end: usize = start + action.unicode_len();
    let attacker_part = text::trim(raw.substring_char(0, start));
    let target = text::trim(raw.substring_char(end, len));
    if attacker_part.is_empty() || (target.is_empty() && !text::same(action, "has crashed")) {
        return None;
    }
    let (attacker, vehicle) = parse_attacker_and_vehicle(attacker_part);
    Some(
        WarThunderEvent::TargetDestroyed {
            attacker,
            action: action.to_owned(),
            vehicle,
            target: non_empty_string(target),
            raw: raw.to_owned(),
        },
    )
}

/// What a trimmed line tells, given its normalized form.
pub open spec fn classified(raw: Seq<char>, normalized: Seq<char>) -> EventView {
    match combat_event(raw) {
        Some(event) => event,
        None => if text::occurs_in(normalized, "critical hit"@) {
            EventView::CriticalHit { raw }
        } else if text::occurs_in(normalized, "severe damage"@) {
            EventView::SevereDamage { raw }
        } else if text::occurs_in(normalized, "base destroyed"@) || text::occurs_in(
            normalized,
            "enemy base destroyed"@,
        ) {
            EventView::BaseDestroyed { raw }
        } else if text::occurs_in(normalized, "you have been destroyed"@) || text::occurs_in(
            normalized,
            "vehicle destroyed"@,
        ) || text::occurs_in(normalized, "player destroyed"@) {
            EventView::PlayerDestroyed { raw }
        } else {
            EventView::Unknown { raw }
        },
    }
}

/// What a trimmed line tells, given its normalized form.
pub fn classify_message(raw: &str, normalized: &str) -> (r: WarThunderEvent)
    ensures
        r@ == classified(raw@, normalized@),
{
    if let Some(event) = parse_combat_action_message(raw) {
        return event;
    }
    let raw: String = raw.to_owned();
    if text::contains(normalized, "critical hit") {
        WarThunderEvent::CriticalHit { raw }
    } else if text::contains(normalized, "severe damage") {
        WarThunderEvent::SevereDamage { raw }
    } else if text::contains(normalized, "base destroyed") || text::contains(
        normalized,
        "enemy base destroyed",
    ) {
        WarThunderEvent::BaseDestroyed { raw }
    } else if text::contains(normalized, "you have been destroyed") || text::contains(
        normalized,
        "vehicle destroyed",
    ) || text::contains(normalized, "player destroyed") {
        WarThunderEvent::PlayerDestroyed { raw }
    } else {
        WarThunderEvent::Unknown(raw)
    }
}

/// What a message tells.
pub open spec fn event_in(message: Seq<char>) -> EventView {
    classified(text::trim_of(message), text::normalized(text::trim_of(message)))
}

pub fn parse_gamechat_event(message: &str) -> (r: WarThunderEvent)
    ensures
        r@ == event_in(message@),
{
    let raw = text::trim(message);
    let normalized = text::normalize(raw);
    classify_message(raw, normalized.as_str())
}

/// A configured player ended a target. A blank name is no name.
pub fn is_personal_kill(event: &WarThunderEvent, player_name: Option<&str>) -> (r: bool)
    ensures
        r == (player_name matches Some(name) && text::trim_of(name@).len() > 0
            && event@.killed_by(name@)),
{
    match player_name {
        Some(name) => !text::trim(name).is_empty() && event.is_personal_kill(name),
        None => false,
    }
}

/// Whatever a message tells, the event keeps the message.
pub proof fn lemma_event_keeps_message(message: Seq<char>)
    ensures
        event_in(message).raw_text() == text::trim_of(message),
{
}

/// A line in which nobody destroys or shoots down anything is nobody's kill.
pub proof fn lemma_only_kill_actions_are_kills(
    raw: Seq<char>,
    normalized: Seq<char>,
    player: Seq<char>,
)
    requires
        match earliest_action(raw, combat_actions_listed()) {
            Some(found) => found.0 == "critically damaged"@ || found.0 == "severely damaged"@
                || found.0 == "has crashed"@ || found.0 == "set afire"@,
            None => true,
        },
    ensures
        !classified(raw, normalized).killed_by(player),
{
    reveal_strlit("critically damaged");
    reveal_strlit("severely damaged");
    reveal_strlit("has crashed");
    reveal_strlit("set afire");
    reveal_strlit("destroyed");
    reveal_strlit("shot down");
    if let Some(found) = earliest_action(raw, combat_actions_listed()) {
        if found.0 == "critically damaged"@ {
            assert(found.0.len() == 18);
        }
        if found.0 == "severely damaged"@ {
            assert(found.0.len() == 16);
        }
        if found.0 == "has crashed"@ {
            assert(found.0.len() == 11);
        }
        if found.0 == "set afire"@ {
            assert(found.0[1] == 'e');
            assert("destroyed"@[0] == 'd');
            assert("shot down"@[1] == 'h');
            assert(found.0[0] == 's');
        }
    }
}

/// Where a kill is credited, the line names the killer in front of the action.
pub proof fn lemma_kill_names_its_attacker(raw: Seq<char>, normalized: Seq<char>, player: Seq<char>)
    requires
        classified(raw, normalized).killed_by(player),
    ensures
        earliest_action(raw, combat_actions_listed()) matches Some(found)
            && attacker_and_vehicle(text::trim_of(raw.subrange(0, found.1))).0 == Some(player),
{
}

/// A message in which nobody does anything to anybody reports a critical hit, a
/// severe damage, the end of a base or the end of the player, by its words, the
/// first of these that it has words for.
pub proof fn lemma_plain_message(message: Seq<char>)
    requires
        combat_event(text::trim_of(message)) is None,
    ensures
        ({
            let raw = text::trim_of(message);
            let said = text::normalized(raw);
            let event = event_in(message);
            let hit = text::occurs_in(said, "critical hit"@);
            let damage = text::occurs_in(said, "severe damage"@);
            let base = text::occurs_in(said, "base destroyed"@);
            let ended = text::occurs_in(said, "you have been destroyed"@) || text::occurs_in(
                said,
                "vehicle destroyed"@,
            ) || text::occurs_in(said, "player destroyed"@);
            &&& event.raw_text() == raw
            &&& event is CriticalHit <==> hit
            &&& event is SevereDamage <==> damage && !hit
            &&& event is BaseDestroyed <==> base && !hit && !damage
            &&& event is PlayerDestroyed <==> ended && !hit && !damage && !base
            &&& event is Unknown <==> !hit && !damage && !base && !ended
        }),
{
    let said = text::normalized(text::trim_of(message));
    if text::occurs_in(said, "enemy base destroyed"@) {
        reveal_strlit("enemy base destroyed");
        reveal_strlit("base destroyed");
        assert("enemy base destroyed"@.subrange(6, 20) =~= "base destroyed"@);
        assert(text::matches_at("enemy base destroyed"@, "base destroyed"@, 6));
        text::lemma_occurs_within(said, "enemy base destroyed"@, "base destroyed"@);
    }
}

/// Nobody does anything to anybody in a message without a closing parenthesis:
/// who acts is always named with a vehicle.
pub proof fn lemma_no_vehicle_no_fight(message: Seq<char>)
    requires
        !message.contains(')'),
    ensures
        combat_event(text::trim_of(message)) is None,
        combat_event(message) is None,
{
    lemma_trimmed_within(message);
    let t = text::trim_of(message);
    assert(!t.contains(')')) by {
        if t.contains(')') {
            let i = choose|i: int| 0 <= i < t.len() && t[i] == ')';
            let a = choose|a: int|
                0 <= a && a + t.len() <= message.len() && t == #[trigger] message.subrange(
                    a,
                    a + t.len(),
                );
            assert(message[a + i] == ')');
        }
    }
    lemma_no_action(t, combat_actions_listed());
    lemma_no_action(message, combat_actions_listed());
}

proof fn lemma_trimmed_within(s: Seq<char>)
    ensures
        exists|a: int|
            0 <= a && a + text::trim_of(s).len() <= s.len() && text::trim_of(s)
                == #[trigger] s.subrange(a, a + text::trim_of(s).len()),
{
    text::lemma_trim_within(s);
}

proof fn lemma_no_action(raw: Seq<char>, actions: Seq<Seq<char>>)
    requires
        !raw.contains(')'),
    ensures
        earliest_action(raw, actions) is None,
    decreases actions.len(),
{
    if actions.len() > 0 {
        lemma_no_action(raw, actions.drop_last());
        let action = actions.last();
        if let Some(start) = action_start(raw, action) {
            text::lemma_find_in(raw, " "@ + action);
            reveal_strlit(" ");
            reveal_strlit(")");
            let front = raw.subrange(0, start);
            let t = text::trim_of(front);
            text::lemma_trim_within(front);
            let a = choose|a: int|
                0 <= a && a + t.len() <= front.len() && t == #[trigger] front.subrange(
                    a,
                    a + t.len(),
                );
            assert(t.subrange(t.len() - 1, t.len() as int)[0] == ")"@[0]);
            assert(t[t.len() - 1] == ')');
            assert(front[a + t.len() - 1] == ')');
            assert(raw[a + t.len() - 1] == ')');
        }
    }
}

/// A text that is not empty and neither begins nor ends with white space.
pub open spec fn is_trimmed(s: Seq<char>) -> bool {
    s.len() > 0 && !text::is_space(s[0]) && !text::is_space(s.last())
}

/// No action of a fight is named in the text.
pub open spec fn holds_no_action(s: Seq<char>) -> bool {
    &&& !text::occurs_in(s, " critically damaged"@)
    &&& !text::occurs_in(s, " severely damaged"@)
    &&& !text::occurs_in(s, " has crashed"@)
    &&& !text::occurs_in(s, " destroyed"@)
    &&& !text::occurs_in(s, " shot down"@)
    &&& !text::occurs_in(s, " set afire"@)
}

/// The actions that a line can name, with the space before them.
proof fn lemma_action_words()
    ensures
        forall|k: int|
            0 <= k < 6 ==> !(" "@ + #[trigger] combat_actions_listed()[k]).contains(')')
                && combat_actions_listed()[k].len() >= 3,
        forall|k: int, m: int|
            0 <= k < 6 && 0 <= m < 6 && k != m ==> (#[trigger] combat_actions_listed()[k])[0] != (
            #[trigger] combat_actions_listed()[m])[0] || combat_actions_listed()[k][1]
                != combat_actions_listed()[m][1] || combat_actions_listed()[k][2]
                != combat_actions_listed()[m][2],
        " "@ + "critically damaged"@ == " critically damaged"@,
        " "@ + "severely damaged"@ == " severely damaged"@,
        " "@ + "has crashed"@ == " has crashed"@,
        " "@ + "destroyed"@ == " destroyed"@,
        " "@ + "shot down"@ == " shot down"@,
        " "@ + "set afire"@ == " set afire"@,
        combat_actions_listed().len() == 6,
{
    reveal_strlit(" ");
    reveal_strlit("critically damaged");
    reveal_strlit("severely damaged");
    reveal_strlit("has crashed");
    reveal_strlit("destroyed");
    reveal_strlit("shot down");
    reveal_strlit("set afire");
    reveal_strlit(" critically damaged");
    reveal_strlit(" severely damaged");
    reveal_strlit(" has crashed");
    reveal_strlit(" destroyed");
    reveal_strlit(" shot down");
    reveal_strlit(" set afire");
    assert(" "@ + "critically damaged"@ =~= " critically damaged"@);
    assert(" "@ + "severely damaged"@ =~= " severely damaged"@);
    assert(" "@ + "has crashed"@ =~= " has crashed"@);
    assert(" "@ + "destroyed"@ =~= " destroyed"@);
    assert(" "@ + "shot down"@ =~= " shot down"@);
    assert(" "@ + "set afire"@ =~= " set afire"@);
    assert(!" critically damaged"@.contains(')'));
    assert(!" severely damaged"@.contains(')'));
    assert(!" has crashed"@.contains(')'));
    assert(!" destroyed"@.contains(')'));
    assert(!" shot down"@.contains(')'));
    assert(!" set afire"@.contains(')'));
    let c = combat_actions_listed();
    assert(c[0][0] == 'c');
    assert(c[1][0] == 's' && c[1][1] == 'e' && c[1][2] == 'v');
    assert(c[2][0] == 'h');
    assert(c[3][0] == 'd');
    assert(c[4][0] == 's' && c[4][1] == 'h');
    assert(c[5][0] == 's' && c[5][1] == 'e' && c[5][2] == 't');
}

/// In a line that begins with `front`, which names no action and ends in a
/// closing parenthesis, no action stands before the end of `front`.
proof fn lemma_no_action_in_front(line: Seq<char>, front: Seq<char>, needle: Seq<char>, at: int)
    requires
        front.len() > 0,
        front.last() == ')',
        front.len() <= line.len(),
        line.subrange(0, front.len() as int) == front,
        !text::occurs_in(front, needle),
        !needle.contains(')'),
        needle.len() > 0,
        text::matches_at(line, needle, at),
    ensures
        at >= front.len(),
{
    if at < front.len() {
        if at + needle.len() <= front.len() {
            let whole = line.subrange(0, front.len() as int);
            assert(whole.subrange(at, at + needle.len()) =~= line.subrange(
                at,
                at + needle.len(),
            ));
            assert(text::matches_at(front, needle, at));
        } else {
            let k = front.len() - 1 - at;
            assert(line.subrange(at, at + needle.len())[k] == needle[k]);
            assert(line.subrange(0, front.len() as int)[front.len() - 1] == ')');
            assert(needle[k] == ')');
        }
    }
}

proof fn lemma_earliest_is(raw: Seq<char>, actions: Seq<Seq<char>>, k: int, start: int)
    requires
        0 <= k < actions.len(),
        action_start(raw, actions[k]) == Some(start),
        forall|m: int|
            0 <= m < actions.len() && m != k ==> (action_start(raw, #[trigger] actions[m]) matches Some(
                s,
            ) ==> s > start),
    ensures
        earliest_action(raw, actions) == Some((actions[k], start)),
    decreases actions.len(),
{
    let front = actions.drop_last();
    if k < actions.len() - 1 {
        assert forall|m: int| 0 <= m < front.len() && m != k implies (action_start(
            raw,
            #[trigger] front[m],
        ) matches Some(s) ==> s > start) by {
            assert(front[m] == actions[m]);
        }
        lemma_earliest_is(raw, front, k, start);
        assert(actions[actions.len() - 1] == actions.last());
    } else {
        lemma_earliest_later(raw, front, start, actions);
    }
}

proof fn lemma_earliest_later(
    raw: Seq<char>,
    actions: Seq<Seq<char>>,
    start: int,
    all: Seq<Seq<char>>,
)
    requires
        actions.len() <= all.len(),
        forall|m: int| 0 <= m < actions.len() ==> #[trigger] actions[m] == all[m],
        forall|m: int|
            0 <= m < actions.len() ==> (action_start(raw, #[trigger] all[m]) matches Some(s) ==> s
                > start),
    ensures
        earliest_action(raw, actions) matches Some(found) ==> found.1 > start,
    decreases actions.len(),
{
    if actions.len() > 0 {
        let front = actions.drop_last();
        assert forall|m: int| 0 <= m < front.len() implies #[trigger] front[m] == all[m] by {
            assert(front[m] == actions[m]);
        }
        lemma_earliest_later(raw, front, start, all);
        assert(actions[actions.len() - 1] == all[actions.len() - 1]);
    }
}

proof fn lemma_matching_open_is(s: Seq<char>, open: int, end: int)
    requires
        0 <= open < end <= s.len(),
        s[open] == '(',
        forall|i: int| open < i < end ==> s[i] != '(' && s[i] != ')',
    ensures
        matching_open(s, end, 1) == Some(open),
    decreases end,
{
    if end - 1 > open {
        lemma_matching_open_is(s, open, end - 1);
    }
}

/// The action that stands behind `front` is the first one in the line.
proof fn lemma_action_behind(
    front: Seq<char>,
    actions: Seq<Seq<char>>,
    k: int,
    target: Seq<char>,
)
    requires
        0 <= k < actions.len(),
        is_trimmed(front),
        front.last() == ')',
        forall|m: int|
            0 <= m < actions.len() ==> !text::occurs_in(front, " "@ + #[trigger] actions[m]) && !(
            " "@ + actions[m]).contains(')') && actions[m].len() >= 3,
        forall|m: int|
            0 <= m < actions.len() && m != k ==> actions[k][0] != (#[trigger] actions[m])[0]
                || actions[k][1] != actions[m][1] || actions[k][2] != actions[m][2],
    ensures
        earliest_action(front + " "@ + actions[k] + " "@ + target, actions) == Some(
            (actions[k], front.len() as int + 1),
        ),
        text::trim_of((front + " "@ + actions[k] + " "@ + target).subrange(0, front.len() as int + 1))
            == front,
{
    reveal_strlit(" ");
    reveal_strlit(")");
    let action = actions[k];
    let line = front + " "@ + action + " "@ + target;
    let n = front.len() as int;
    let start = n + 1;
    let end = start + action.len();
    assert(line.subrange(0, n) =~= front);
    let needle = " "@ + action;
    assert(line.subrange(n, n + needle.len()) =~= needle);
    assert(text::matches_at(line, needle, n));
    text::lemma_find_in(line, needle);
    assert(text::occurs_in(line, needle));
    let found = text::find_in(line, needle)->0;
    assert(!text::occurs_in(front, " "@ + actions[k]));
    lemma_no_action_in_front(line, front, needle, found);
    assert(found == n);
    let before = line.subrange(0, start);
    assert(before =~= front + " "@);
    text::lemma_trim_is(before, 0, n);
    assert(before.subrange(0, n) =~= front);
    assert(front.subrange(n - 1, n) =~= ")"@);
    assert(text::has_suffix(front, ")"@));
    assert(line[end] == ' ');
    assert(action_start(line, action) == Some(start));
    assert forall|m: int| 0 <= m < actions.len() && m != k implies (action_start(
        line,
        #[trigger] actions[m],
    ) matches Some(s) ==> s > start) by {
        let other = " "@ + actions[m];
        text::lemma_find_in(line, other);
        if let Some(s) = action_start(line, actions[m]) {
            lemma_no_action_in_front(line, front, other, s - 1);
            if s == start {
                let there = line.subrange(n, n + other.len());
                assert(there == other);
                assert(there[1] == line[n + 1] && there[2] == line[n + 2] && there[3] == line[n
                    + 3]);
                assert(line[n + 1] == action[0] && line[n + 2] == action[1] && line[n + 3]
                    == action[2]);
                assert(other[1] == actions[m][0] && other[2] == actions[m][1] && other[3]
                    == actions[m][2]);
            }
        }
    }
    lemma_earliest_is(line, actions, k, start);
}

/// A trimmed text stays what it is, also with a space behind it.
proof fn lemma_trimmed_stays(s: Seq<char>)
    requires
        is_trimmed(s),
    ensures
        text::trim_of(s) == s,
        text::trim_of(s.push(' ')) == s,
{
    text::lemma_trim_is(s, 0, s.len() as int);
    assert(s.subrange(0, s.len() as int) =~= s);
    let t = s.push(' ');
    text::lemma_trim_is(t, 0, s.len() as int);
    assert(t.subrange(0, s.len() as int) =~= s);
}

/// Where the parentheses stand behind a name.
proof fn lemma_vehicle_parentheses(name: Seq<char>, vehicle: Seq<char>, front: Seq<char>)
    requires
        is_trimmed(name),
        is_trimmed(vehicle),
        !vehicle.contains('('),
        !vehicle.contains(')'),
        front == name + " ("@ + vehicle + ")"@,
    ensures
        is_trimmed(front),
        front.last() == ')',
        text::has_suffix(front, ")"@),
        matching_open(front, front.len() as int, 0) == Some(name.len() as int + 1),
        front[name.len() as int] == ' ',
        front.subrange(0, name.len() as int + 1) == name.push(' '),
        front.subrange(name.len() as int + 2, front.len() - 1) == vehicle,
{
    reveal_strlit(" (");
    reveal_strlit(")");
    let n = front.len() as int;
    let open = name.len() as int + 1;
    assert(front.last() == ')');
    assert(front[0] == name[0]);
    assert(front.subrange(n - 1, n) =~= ")"@);
    assert(front[open] == '(');
    assert(front[open - 1] == ' ');
    assert forall|i: int| open < i < n - 1 implies front[i] != '(' && front[i] != ')' by {
        assert(front[i] == vehicle[i - open - 1]);
        assert(vehicle.contains(vehicle[i - open - 1]));
    }
    lemma_matching_open_is(front, open, n - 1);
    assert(matching_open(front, n, 0) == matching_open(front, n - 1, 1));
    assert(front.subrange(0, open) =~= name.push(' '));
    assert(front.subrange(open + 1, n - 1) =~= vehicle);
}

/// A name and a vehicle in parentheses behind it are told apart.
proof fn lemma_name_and_vehicle(name: Seq<char>, vehicle: Seq<char>)
    requires
        is_trimmed(name),
        is_trimmed(vehicle),
        !vehicle.contains('('),
        !vehicle.contains(')'),
    ensures
        attacker_and_vehicle(name + " ("@ + vehicle + ")"@) == (Some(name), Some(vehicle)),
        is_trimmed(name + " ("@ + vehicle + ")"@),
        (name + " ("@ + vehicle + ")"@).last() == ')',
{
    let front = name + " ("@ + vehicle + ")"@;
    lemma_vehicle_parentheses(name, vehicle, front);
    lemma_trimmed_stays(front);
    lemma_trimmed_stays(name);
    lemma_trimmed_stays(vehicle);
}

proof fn lemma_no_listed_action(front: Seq<char>)
    requires
        holds_no_action(front),
    ensures
        forall|m: int|
            0 <= m < 6 ==> !text::occurs_in(front, " "@ + #[trigger] combat_actions_listed()[m]),
{
    lemma_action_words();
    let c = combat_actions_listed();
    assert forall|m: int| 0 <= m < 6 implies !text::occurs_in(front, " "@ + #[trigger] c[m]) by {
        assert(m == 0 || m == 1 || m == 2 || m == 3 || m == 4 || m == 5);
        assert(c[0] == "critically damaged"@);
        assert(c[1] == "severely damaged"@);
        assert(c[2] == "has crashed"@);
        assert(c[3] == "destroyed"@);
        assert(c[4] == "shot down"@);
        assert(c[5] == "set afire"@);
    }
}

/// A line that names a player, the vehicle in parentheses, an action and a target
/// tells just that: who did it, in what, what, and to whom.
pub proof fn lemma_combat_line(
    name: Seq<char>,
    vehicle: Seq<char>,
    action: Seq<char>,
    target: Seq<char>,
)
    requires
        action == "critically damaged"@ || action == "severely damaged"@ || action
            == "has crashed"@ || action == "destroyed"@ || action == "shot down"@ || action
            == "set afire"@,
        is_trimmed(name),
        is_trimmed(vehicle),
        is_trimmed(target),
        !vehicle.contains('('),
        !vehicle.contains(')'),
        holds_no_action(name + " ("@ + vehicle + ")"@),
    ensures
        event_in(name + " ("@ + vehicle + ")"@ + " "@ + action + " "@ + target) == (
        EventView::TargetDestroyed {
            attacker: Some(name),
            action,
            vehicle: Some(vehicle),
            target: Some(target),
            raw: name + " ("@ + vehicle + ")"@ + " "@ + action + " "@ + target,
        }),
{
    reveal_strlit(" ");
    let front = name + " ("@ + vehicle + ")"@;
    let line = front + " "@ + action + " "@ + target;
    let c = combat_actions_listed();
    assert(c[0] == "critically damaged"@);
    assert(c[1] == "severely damaged"@);
    assert(c[2] == "has crashed"@);
    assert(c[3] == "destroyed"@);
    assert(c[4] == "shot down"@);
    assert(c[5] == "set afire"@);
    let k: int = if action == c[0] {
        0
    } else if action == c[1] {
        1
    } else if action == c[2] {
        2
    } else if action == c[3] {
        3
    } else if action == c[4] {
        4
    } else {
        5
    };
    assert(action == c[k]);
    lemma_action_words();
    lemma_no_listed_action(front);
    lemma_name_and_vehicle(name, vehicle);
    lemma_action_behind(front, c, k, target);
    assert(line[0] == front[0]);
    assert(line.last() == target.last());
    text::lemma_trim_is(line, 0, line.len() as int);
    assert(line.subrange(0, line.len() as int) =~= line);
    let end = front.len() + 1 + action.len();
    let rest = line.subrange(end as int, line.len() as int);
    assert(rest =~= " "@ + target);
    text::lemma_trim_is(rest, 1, rest.len() as int);
    assert(rest.subrange(1, rest.len() as int) =~= target);
}

/// A kill is a player's where the player is named as the attacker and the action
/// ends its target, and never else.
pub proof fn lemma_kill_is_the_attackers(event: EventView, player: Seq<char>)
    ensures
        event.killed_by(player) <==> (event matches EventView::TargetDestroyed {
            attacker: Some(attacker),
            action,
            ..
        } && attacker == player && (action == "destroyed"@ || action == "shot down"@)),
{
}

/// The action at the end of the line, with nothing behind it.
proof fn lemma_action_at_the_end(front: Seq<char>, actions: Seq<Seq<char>>, k: int)
    requires
        0 <= k < actions.len(),
        is_trimmed(front),
        front.last() == ')',
        forall|m: int|
            0 <= m < actions.len() ==> !text::occurs_in(front, " "@ + #[trigger] actions[m]) && !(
            " "@ + actions[m]).contains(')') && actions[m].len() >= 3,
        forall|m: int|
            0 <= m < actions.len() && m != k ==> actions[k][0] != (#[trigger] actions[m])[0]
                || actions[k][1] != actions[m][1] || actions[k][2] != actions[m][2],
    ensures
        earliest_action(front + " "@ + actions[k], actions) == Some(
            (actions[k], front.len() as int + 1),
        ),
        text::trim_of((front + " "@ + actions[k]).subrange(0, front.len() as int + 1)) == front,
{
    reveal_strlit(" ");
    reveal_strlit(")");
    let action = actions[k];
    let line = front + " "@ + action;
    let n = front.len() as int;
    let start = n + 1;
    assert(line.subrange(0, n) =~= front);
    let needle = " "@ + action;
    assert(line.subrange(n, n + needle.len()) =~= needle);
    assert(text::matches_at(line, needle, n));
    text::lemma_find_in(line, needle);
    assert(text::occurs_in(line, needle));
    let found = text::find_in(line, needle)->0;
    assert(!text::occurs_in(front, " "@ + actions[k]));
    lemma_no_action_in_front(line, front, needle, found);
    assert(found == n);
    let before = line.subrange(0, start);
    assert(before =~= front + " "@);
    text::lemma_trim_is(before, 0, n);
    assert(before.subrange(0, n) =~= front);
    assert(front.subrange(n - 1, n) =~= ")"@);
    assert(text::has_suffix(front, ")"@));
    assert(action_start(line, action) == Some(start));
    assert forall|m: int| 0 <= m < actions.len() && m != k implies (action_start(
        line,
        #[trigger] actions[m],
    ) matches Some(s) ==> s > start) by {
        let other = " "@ + actions[m];
        text::lemma_find_in(line, other);
        if let Some(s) = action_start(line, actions[m]) {
            lemma_no_action_in_front(line, front, other, s - 1);
            if s == start {
                let there = line.subrange(n, n + other.len());
                assert(there == other);
                assert(there[1] == line[n + 1] && there[2] == line[n + 2] && there[3] == line[n
                    + 3]);
                assert(line[n + 1] == action[0] && line[n + 2] == action[1] && line[n + 3]
                    == action[2]);
                assert(other[1] == actions[m][0] && other[2] == actions[m][1] && other[3]
                    == actions[m][2]);
            }
        }
    }
    lemma_earliest_is(line, actions, k, start);
}

/// A line that says that somebody has crashed names nobody else, and is no kill.
pub proof fn lemma_crash_line(name: Seq<char>, vehicle: Seq<char>, player: Seq<char>)
    requires
        is_trimmed(name),
        is_trimmed(vehicle),
        !vehicle.contains('('),
        !vehicle.contains(')'),
        holds_no_action(name + " ("@ + vehicle + ")"@),
    ensures
        event_in(name + " ("@ + vehicle + ")"@ + " "@ + "has crashed"@) == (
        EventView::TargetDestroyed {
            attacker: Some(name),
            action: "has crashed"@,
            vehicle: Some(vehicle),
            target: None,
            raw: name + " ("@ + vehicle + ")"@ + " "@ + "has crashed"@,
        }),
        !event_in(name + " ("@ + vehicle + ")"@ + " "@ + "has crashed"@).killed_by(player),
{
    let front = name + " ("@ + vehicle + ")"@;
    let line = front + " "@ + "has crashed"@;
    let c = combat_actions_listed();
    assert(c[2] == "has crashed"@);
    lemma_action_words();
    lemma_no_listed_action(front);
    lemma_name_and_vehicle(name, vehicle);
    lemma_action_at_the_end(front, c, 2);
    reveal_strlit("has crashed");
    reveal_strlit("destroyed");
    reveal_strlit("shot down");
    assert("has crashed"@.len() == 11);
    assert(line[0] == front[0]);
    assert(line.last() == 'd');
    text::lemma_trim_is(line, 0, line.len() as int);
    assert(line.subrange(0, line.len() as int) =~= line);
    reveal_strlit(" ");
    let end = front.len() as int + 1 + 11;
    let rest = line.subrange(end, line.len() as int);
    assert(rest =~= Seq::<char>::empty());
    text::lemma_trim_blank(rest);
}

}
