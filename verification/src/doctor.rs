//! Is the machine ready? Checks, and what is reported of them.

use vstd::prelude::*;
use vstd::string::*;
use crate::capture::gpu_screen_recorder;
use crate::capture::gpu_screen_recorder::ProgramCall;
use crate::config::{AppConfig, GpuScreenRecorderMode};
use crate::number;
use crate::path;
use crate::text;

verus! {

pub const ONE_GIB: u64 = 1_073_741_824;

pub const FIVE_GIB: u64 = 5_368_709_120;

#[derive(Clone, Copy, Debug, PartialEq, Eq, Structural)]
pub enum DoctorStatus {
    Passed,
    Warn,
    Error,
}

#[derive(Debug, PartialEq, Eq)]
pub struct DoctorCheck {
    pub name: String,
    pub status: DoctorStatus,
    pub message: String,
    pub hint: Option<String>,
}

/// A check with its texts as sequences of characters.
pub ghost struct CheckView {
    pub name: Seq<char>,
    pub status: DoctorStatus,
    pub message: Seq<char>,
    pub hint: Option<Seq<char>>,
}

impl View for DoctorCheck {
    type V = CheckView;

    open spec fn view(&self) -> CheckView {
        CheckView {
            name: self.name@,
            status: self.status,
            message: self.message@,
            hint: text::opt_text(self.hint),
        }
    }
}

pub open spec fn checks_view(s: Seq<DoctorCheck>) -> Seq<CheckView> {
    s.map_values(|c: DoctorCheck| c@)
}

#[derive(Debug)]
pub struct DoctorReport {
    pub checks: Vec<DoctorCheck>,
    pub summary: String,
}

#[derive(Debug)]
pub struct FreeSpaceReport {
    pub path: String,
    pub available_bytes: u64,
    pub required_bytes: u64,
    pub status: DoctorStatus,
}

fn opt_owned(o: Option<&str>) -> (r: Option<String>)
    ensures
        text::opt_text(r) == text::opt_str(o),
{
    match o {
        Some(s) => Some(s.to_owned()),
        None => None,
    }
}

pub open spec fn passed(name: Seq<char>, message: Seq<char>) -> CheckView {
    CheckView { name, status: DoctorStatus::Passed, message, hint: None }
}

pub open spec fn warned(name: Seq<char>, message: Seq<char>, hint: Seq<char>) -> CheckView {
    CheckView { name, status: DoctorStatus::Warn, message, hint: Some(hint) }
}

pub open spec fn failed(name: Seq<char>, message: Seq<char>, hint: Seq<char>) -> CheckView {
    CheckView { name, status: DoctorStatus::Error, message, hint: Some(hint) }
}

impl DoctorCheck {
    pub fn ok(name: &str, message: &str) -> (r: Self)
        ensures
            r@ == passed(name@, message@),
    {
        DoctorCheck {
            name: name.to_owned(),
            status: DoctorStatus::Passed,
            message: message.to_owned(),
            hint: None,
        }
    }

    pub fn warn(name: &str, message: &str, hint: Option<&str>) -> (r: Self)
        ensures
            r@ == (CheckView {
                name: name@,
                status: DoctorStatus::Warn,
                message: message@,
                hint: text::opt_str(hint),
            }),
    {
        DoctorCheck {
            name: name.to_owned(),
            status: DoctorStatus::Warn,
            message: message.to_owned(),
            hint: opt_owned(hint),
        }
    }

    pub fn error(name: &str, message: &str, hint: Option<&str>) -> (r: Self)
        ensures
            r@ == (CheckView {
                name: name@,
                status: DoctorStatus::Error,
                message: message@,
                hint: text::opt_str(hint),
            }),
    {
        DoctorCheck {
            name: name.to_owned(),
            status: DoctorStatus::Error,
            message: message.to_owned(),
            hint: opt_owned(hint),
        }
    }
}

pub open spec fn any_with(checks: Seq<CheckView>, status: DoctorStatus) -> bool {
    exists|i: int| 0 <= i < checks.len() && (#[trigger] checks[i]).status == status
}

/// One line on all checks: errors before warnings before success.
pub open spec fn summary_text(checks: Seq<CheckView>) -> Seq<char> {
    if any_with(checks, DoctorStatus::Error) {
        "Doctor completed with errors."@
    } else if any_with(checks, DoctorStatus::Warn) {
        "Doctor completed with warnings."@
    } else {
        "Doctor completed successfully."@
    }
}

fn has_status(checks: &Vec<DoctorCheck>, status: DoctorStatus) -> (r: bool)
    ensures
        r == any_with(checks_view(checks@), status),
{
    let ghost all = checks_view(checks@);
    let mut i: usize = 0;
    while i < checks.len()
        invariant
            i <= checks.len(),
            all == checks_view(checks@),
            forall|j: int| 0 <= j < i ==> (#[trigger] all[j]).status != status,
        decreases checks.len() - i,
    {
        assert(all[i as int] == checks@[i as int]@);
        if checks[i].status == status {
            return true;
        }
        i = i + 1;
    }
    false
}

pub fn summary_for_checks(checks: &Vec<DoctorCheck>) -> (r: String)
    ensures
        r@ == summary_text(checks_view(checks@)),
{
    if has_status(checks, DoctorStatus::Error) {
        "Doctor completed with errors.".to_owned()
    } else if has_status(checks, DoctorStatus::Warn) {
        "Doctor completed with warnings.".to_owned()
    } else {
        "Doctor completed successfully.".to_owned()
    }
}

/// Success is only reported where every check passed.
pub proof fn lemma_success_means_all_passed(checks: Seq<CheckView>)
    requires
        summary_text(checks) == "Doctor completed successfully."@,
    ensures
        forall|i: int| 0 <= i < checks.len() ==> (#[trigger] checks[i]).status is Passed,
{
    reveal_strlit("Doctor completed successfully.");
    reveal_strlit("Doctor completed with errors.");
    reveal_strlit("Doctor completed with warnings.");
    assert("Doctor completed with errors."@.len() == 29);
    assert("Doctor completed with warnings."@.len() == 31);
    assert("Doctor completed successfully."@.len() == 30);
    assert forall|i: int| 0 <= i < checks.len() implies (#[trigger] checks[i]).status is Passed by {
        match checks[i].status {
            DoctorStatus::Passed => {},
            DoctorStatus::Warn => {
                assert(any_with(checks, DoctorStatus::Warn));
            },
            DoctorStatus::Error => {
                assert(any_with(checks, DoctorStatus::Error));
            },
        }
    }
}

pub open spec fn status_word(status: DoctorStatus) -> Seq<char> {
    match status {
        DoctorStatus::Passed => "OK"@,
        DoctorStatus::Warn => "WARN"@,
        DoctorStatus::Error => "ERROR"@,
    }
}

pub open spec fn check_text(check: CheckView) -> Seq<char> {
    let line = "["@ + status_word(check.status) + "] "@ + check.name + ": "@ + check.message
        + "\n"@;
    match check.hint {
        Some(hint) => line + "       hint: "@ + hint + "\n"@,
        None => line,
    }
}

pub fn format_check_text(check: &DoctorCheck) -> (r: String)
    ensures
        r@ == check_text(check@),
{
    let status: &'static str = match check.status {
        DoctorStatus::Passed => "OK",
        DoctorStatus::Warn => "WARN",
        DoctorStatus::Error => "ERROR",
    };
    let mut line: String = "[".to_owned();
    line.append(status);
    line.append("] ");
    line.append(check.name.as_str());
    line.append(": ");
    line.append(check.message.as_str());
    line.append("\n");
    if let Some(hint) = &check.hint {
        line.append("       hint: ");
        line.append(hint.as_str());
        line.append("\n");
    }
    line
}

/// The checks, one after the other.
pub open spec fn all_checks_text(checks: Seq<CheckView>) -> Seq<char>
    decreases checks.len(),
{
    if checks.len() == 0 {
        seq![]
    } else {
        all_checks_text(checks.drop_last()) + check_text(checks.last())
    }
}

pub open spec fn report_text(checks: Seq<CheckView>, summary: Seq<char>) -> Seq<char> {
    "WT Clipper Doctor\n\n"@ + all_checks_text(checks) + "\nSummary:\n"@ + summary + "\n"@
}

pub fn format_report_text(report: &DoctorReport) -> (r: String)
    ensures
        r@ == report_text(checks_view(report.checks@), report.summary@),
{
    let ghost all = checks_view(report.checks@);
    let mut checks: String = String::new();
    let mut i: usize = 0;
    while i < report.checks.len()
        invariant
            i <= report.checks.len(),
            all == checks_view(report.checks@),
            checks@ == all_checks_text(all.subrange(0, i as int)),
        decreases report.checks.len() - i,
    {
        let ghost next = all.subrange(0, i + 1);
        assert(next.drop_last() == all.subrange(0, i as int));
        assert(next.last() == report.checks@[i as int]@);
        checks.append(format_check_text(&report.checks[i]).as_str());
        i = i + 1;
    }
    assert(all.subrange(0, all.len() as int) == all);
    let mut output: String = "WT Clipper Doctor\n\n".to_owned();
    output.append(checks.as_str());
    output.append("\nSummary:\n");
    output.append(report.summary.as_str());
    output.append("\n");
    output
}

/// How running a program went.
#[derive(Debug)]
pub enum RunOutcome {
    Succeeded,
    /// It ended with this status.
    Exited(String),
    /// It could not be run, for this reason.
    NotRun(String),
}

pub open spec fn command_check(name: Seq<char>, program: Seq<char>, outcome: RunOutcome) -> CheckView {
    match outcome {
        RunOutcome::Succeeded => passed(name, "available"@),
        RunOutcome::Exited(status) => warned(
            name,
            "command exited with status "@ + status@,
            "verify `"@ + program + "` is installed correctly"@,
        ),
        RunOutcome::NotRun(error) => warned(
            name,
            "not found: "@ + error@,
            "install `"@ + program + "` or ensure it is in PATH"@,
        ),
    }
}

pub fn check_command(name: &str, program: &str, outcome: &RunOutcome) -> (r: DoctorCheck)
    ensures
        r@ == command_check(name@, program@, *outcome),
{
    match outcome {
        RunOutcome::Succeeded => DoctorCheck::ok(name, "available"),
        RunOutcome::Exited(status) => {
            let mut hint: String = text::join2("verify `", program);
            hint.append("` is installed correctly");
            DoctorCheck::warn(
                name,
                text::join2("command exited with status ", status.as_str()).as_str(),
                Some(hint.as_str()),
            )
        },
        RunOutcome::NotRun(error) => {
            let mut hint: String = text::join2("install `", program);
            hint.append("` or ensure it is in PATH");
            DoctorCheck::warn(
                name,
                text::join2("not found: ", error.as_str()).as_str(),
                Some(hint.as_str()),
            )
        },
    }
}

pub open spec fn gsr_native_check(outcome: RunOutcome) -> CheckView {
    match outcome {
        RunOutcome::Succeeded => passed("GPU Screen Recorder native"@, "available"@),
        RunOutcome::Exited(status) => warned(
            "GPU Screen Recorder native"@,
            "command exited with status "@ + status@,
            "Flatpak mode can still be used"@,
        ),
        RunOutcome::NotRun(error) => warned(
            "GPU Screen Recorder native"@,
            "not found: "@ + error@,
            "install native gpu-screen-recorder or use Flatpak mode"@,
        ),
    }
}

pub fn check_gsr_native(outcome: &RunOutcome) -> (r: DoctorCheck)
    ensures
        r@ == gsr_native_check(*outcome),
{
    match outcome {
        RunOutcome::Succeeded => DoctorCheck::ok("GPU Screen Recorder native", "available"),
        RunOutcome::Exited(status) => DoctorCheck::warn(
            "GPU Screen Recorder native",
            text::join2("command exited with status ", status.as_str()).as_str(),
            Some("Flatpak mode can still be used"),
        ),
        RunOutcome::NotRun(error) => DoctorCheck::warn(
            "GPU Screen Recorder native",
            text::join2("not found: ", error.as_str()).as_str(),
            Some("install native gpu-screen-recorder or use Flatpak mode"),
        ),
    }
}

pub open spec fn gsr_flatpak_app_check(outcome: RunOutcome) -> CheckView {
    match outcome {
        RunOutcome::Succeeded => passed(
            "GPU Screen Recorder Flatpak"@,
            "com.dec05eba.gpu_screen_recorder installed"@,
        ),
        RunOutcome::Exited(status) => warned(
            "GPU Screen Recorder Flatpak"@,
            "flatpak info exited with status "@ + status@,
            "install com.dec05eba.gpu_screen_recorder from Flatpak"@,
        ),
        RunOutcome::NotRun(error) => warned(
            "GPU Screen Recorder Flatpak"@,
            "flatpak unavailable: "@ + error@,
            "install Flatpak or use native mode"@,
        ),
    }
}

pub fn check_gsr_flatpak_app(outcome: &RunOutcome) -> (r: DoctorCheck)
    ensures
        r@ == gsr_flatpak_app_check(*outcome),
{
    match outcome {
        RunOutcome::Succeeded => DoctorCheck::ok(
            "GPU Screen Recorder Flatpak",
            "com.dec05eba.gpu_screen_recorder installed",
        ),
        RunOutcome::Exited(status) => DoctorCheck::warn(
            "GPU Screen Recorder Flatpak",
            text::join2("flatpak info exited with status ", status.as_str()).as_str(),
            Some("install com.dec05eba.gpu_screen_recorder from Flatpak"),
        ),
        RunOutcome::NotRun(error) => DoctorCheck::warn(
            "GPU Screen Recorder Flatpak",
            text::join2("flatpak unavailable: ", error.as_str()).as_str(),
            Some("install Flatpak or use native mode"),
        ),
    }
}

pub open spec fn gsr_flatpak_help_check(outcome: RunOutcome) -> CheckView {
    match outcome {
        RunOutcome::Succeeded => passed("GSR Flatpak command"@, "help works"@),
        RunOutcome::Exited(status) => warned(
            "GSR Flatpak command"@,
            "help exited with status "@ + status@,
            "check the Flatpak installation"@,
        ),
        RunOutcome::NotRun(error) => warned(
            "GSR Flatpak command"@,
            "could not run Flatpak GSR: "@ + error@,
            "check flatpak permissions and installation"@,
        ),
    }
}

pub fn check_gsr_flatpak_help(outcome: &RunOutcome) -> (r: DoctorCheck)
    ensures
        r@ == gsr_flatpak_help_check(*outcome),
{
    match outcome {
        RunOutcome::Succeeded => DoctorCheck::ok("GSR Flatpak command", "help works"),
        RunOutcome::Exited(status) => DoctorCheck::warn(
            "GSR Flatpak command",
            text::join2("help exited with status ", status.as_str()).as_str(),
            Some("check the Flatpak installation"),
        ),
        RunOutcome::NotRun(error) => DoctorCheck::warn(
            "GSR Flatpak command",
            text::join2("could not run Flatpak GSR: ", error.as_str()).as_str(),
            Some("check flatpak permissions and installation"),
        ),
    }
}

pub open spec fn monitors_check(outcome: RunOutcome, listing: Seq<char>) -> CheckView {
    match outcome {
        RunOutcome::Succeeded => passed(
            "GSR monitors"@,
            if text::lines_of(listing).len() > 0 {
                text::lines_of(listing)[0]
            } else {
                "no monitors listed"@
            },
        ),
        RunOutcome::Exited(status) => warned(
            "GSR monitors"@,
            "list-monitors exited with status "@ + status@,
            "GSR may still work after the desktop grants access"@,
        ),
        RunOutcome::NotRun(error) => warned(
            "GSR monitors"@,
            "could not list monitors: "@ + error@,
            "verify Flatpak GSR can run"@,
        ),
    }
}

pub fn check_gsr_list_monitors(outcome: &RunOutcome, stdout: &[u8]) -> (r: DoctorCheck)
    ensures
        r@ == monitors_check(*outcome, text::text_in(stdout@)),
{
    match outcome {
        RunOutcome::Succeeded => {
            let listing = text::from_utf8_lossy(stdout);
            let lines = text::lines(listing.as_str());
            if lines.len() > 0 {
                assert(text::texts(lines@)[0] == lines@[0]@);
                DoctorCheck::ok("GSR monitors", lines[0].as_str())
            } else {
                assert(text::texts(lines@).len() == 0);
                DoctorCheck::ok("GSR monitors", "no monitors listed")
            }
        },
        RunOutcome::Exited(status) => DoctorCheck::warn(
            "GSR monitors",
            text::join2("list-monitors exited with status ", status.as_str()).as_str(),
            Some("GSR may still work after the desktop grants access"),
        ),
        RunOutcome::NotRun(error) => DoctorCheck::warn(
            "GSR monitors",
            text::join2("could not list monitors: ", error.as_str()).as_str(),
            Some("verify Flatpak GSR can run"),
        ),
    }
}

pub open spec fn audio_check(device_set: bool) -> CheckView {
    passed(
        "Audio input"@,
        if device_set {
            "WT_CLIPPER_AUDIO_DEVICE set"@
        } else {
            "default_output"@
        },
    )
}

pub fn check_audio_config(device_set: bool) -> (r: DoctorCheck)
    ensures
        r@ == audio_check(device_set),
{
    if device_set {
        DoctorCheck::ok("Audio input", "WT_CLIPPER_AUDIO_DEVICE set")
    } else {
        DoctorCheck::ok("Audio input", "default_output")
    }
}

/// How a request to the game went.
#[derive(Debug)]
pub enum HttpOutcome {
    /// No request could be made.
    NoClient(String),
    /// The game answered with success, and this status.
    Success(String),
    /// It answered with this other status.
    Status(String),
    /// It did not answer.
    Unreachable(String),
}

pub open spec fn localhost_check(outcome: HttpOutcome) -> CheckView {
    match outcome {
        HttpOutcome::NoClient(error) => warned(
            "War Thunder localhost"@,
            "could not build HTTP client: "@ + error@,
            "War Thunder may simply not be running"@,
        ),
        HttpOutcome::Success(_) => passed("War Thunder localhost"@, "reachable"@),
        HttpOutcome::Status(status) => warned(
            "War Thunder localhost"@,
            "reachable but returned HTTP "@ + status@,
            "War Thunder may simply not be running"@,
        ),
        HttpOutcome::Unreachable(error) => warned(
            "War Thunder localhost"@,
            "unreachable: "@ + error@,
            "War Thunder may simply not be running; start War Thunder and enter a battle"@,
        ),
    }
}

pub fn check_war_thunder_localhost(outcome: &HttpOutcome) -> (r: DoctorCheck)
    ensures
        r@ == localhost_check(*outcome),
{
    match outcome {
        HttpOutcome::NoClient(error) => DoctorCheck::warn(
            "War Thunder localhost",
            text::join2("could not build HTTP client: ", error.as_str()).as_str(),
            Some("War Thunder may simply not be running"),
        ),
        HttpOutcome::Success(_) => DoctorCheck::ok("War Thunder localhost", "reachable"),
        HttpOutcome::Status(status) => DoctorCheck::warn(
            "War Thunder localhost",
            text::join2("reachable but returned HTTP ", status.as_str()).as_str(),
            Some("War Thunder may simply not be running"),
        ),
        HttpOutcome::Unreachable(error) => DoctorCheck::warn(
            "War Thunder localhost",
            text::join2("unreachable: ", error.as_str()).as_str(),
            Some("War Thunder may simply not be running; start War Thunder and enter a battle"),
        ),
    }
}

pub open spec fn in_parens(dir: Seq<char>, error: Seq<char>) -> Seq<char> {
    dir + " ("@ + error + ")"@
}

fn with_error(dir: &str, error: &str) -> (r: String)
    ensures
        r@ == in_parens(dir@, error@),
{
    let mut r: String = text::join2(dir, " (");
    r.append(error);
    r.append(")");
    r
}

pub open spec fn unresolved_dir(name: Seq<char>, error: Seq<char>) -> CheckView {
    failed(
        name,
        "could not resolve directory: "@ + error,
        "set HOME or pass an explicit output directory"@,
    )
}

/// Can files be written in the directory? `denied` says why not.
pub open spec fn writable_check(
    name: Seq<char>,
    dir: Result<String, String>,
    denied: Option<String>,
) -> CheckView {
    match dir {
        Ok(dir) => match denied {
            None => passed(name, dir@),
            Some(error) => failed(
                name,
                in_parens(dir@, error@),
                "check directory permissions"@,
            ),
        },
        Err(error) => unresolved_dir(name, error@),
    }
}

pub fn check_writable_dir(
    name: &str,
    dir: &Result<String, String>,
    denied: &Option<String>,
) -> (r: DoctorCheck)
    ensures
        r@ == writable_check(name@, *dir, *denied),
{
    match dir {
        Ok(dir) => match denied {
            None => DoctorCheck::ok(name, dir.as_str()),
            Some(error) => DoctorCheck::error(
                name,
                with_error(dir.as_str(), error.as_str()).as_str(),
                Some("check directory permissions"),
            ),
        },
        Err(error) => DoctorCheck::error(
            name,
            text::join2("could not resolve directory: ", error.as_str()).as_str(),
            Some("set HOME or pass an explicit output directory"),
        ),
    }
}

/// How much room is left: an error below one GiB or below what is required, a
/// warning below five GiB.
pub open spec fn space_status(available: u64, required: u64) -> DoctorStatus {
    if available < ONE_GIB || available < required {
        DoctorStatus::Error
    } else if available < FIVE_GIB {
        DoctorStatus::Warn
    } else {
        DoctorStatus::Passed
    }
}

pub fn check_free_space(dir: &str, available_bytes: u64, required_bytes: u64) -> (r:
    FreeSpaceReport)
    ensures
        r.path@ == dir@,
        r.available_bytes == available_bytes,
        r.required_bytes == required_bytes,
        r.status == space_status(available_bytes, required_bytes),
{
    let status: DoctorStatus = if available_bytes < ONE_GIB || available_bytes < required_bytes {
        DoctorStatus::Error
    } else if available_bytes < FIVE_GIB {
        DoctorStatus::Warn
    } else {
        DoctorStatus::Passed
    };
    FreeSpaceReport { path: dir.to_owned(), available_bytes, required_bytes, status }
}

/// More room never makes the verdict worse.
pub proof fn lemma_more_space_is_no_worse(less: u64, more: u64, required: u64)
    requires
        less <= more,
    ensures
        space_status(less, required) is Passed ==> space_status(more, required) is Passed,
        space_status(more, required) is Error ==> space_status(less, required) is Error,
{
}

/// A size in GiB, or in MiB where it is less than one GiB.
pub open spec fn size_text(bytes: u64) -> Seq<char> {
    if bytes >= ONE_GIB {
        number::with_tenth(bytes as nat, ONE_GIB as nat) + " GiB"@
    } else {
        number::with_tenth(bytes as nat, 1_048_576) + " MiB"@
    }
}

pub fn format_bytes(bytes: u64) -> (r: String)
    ensures
        r@ == size_text(bytes),
{
    if bytes >= ONE_GIB {
        text::join2(number::text_with_tenth(bytes, ONE_GIB).as_str(), " GiB")
    } else {
        text::join2(number::text_with_tenth(bytes, 1_048_576).as_str(), " MiB")
    }
}

pub open spec fn space_check(
    name: Seq<char>,
    dir: Result<String, String>,
    required: u64,
    found: Result<u64, String>,
) -> CheckView {
    match dir {
        Ok(dir) => match found {
            Ok(available) => {
                let message = size_text(available) + " free at "@ + dir@;
                match space_status(available, required) {
                    DoctorStatus::Passed => passed(name, message),
                    DoctorStatus::Warn => warned(
                        name,
                        message,
                        "keep more than 5 GiB free for reliable clip creation"@,
                    ),
                    DoctorStatus::Error => failed(
                        name,
                        message,
                        "free disk space before recording or choose another output directory"@,
                    ),
                }
            },
            Err(error) => failed(
                name,
                in_parens(dir@, error@),
                "check directory permissions and mounted filesystem state"@,
            ),
        },
        Err(error) => unresolved_dir(name, error@),
    }
}

pub fn check_free_space_for_doctor(
    name: &str,
    dir: &Result<String, String>,
    required_bytes: u64,
    found: &Result<u64, String>,
) -> (r: DoctorCheck)
    ensures
        r@ == space_check(name@, *dir, required_bytes, *found),
{
    match dir {
        Ok(dir) => match found {
            Ok(available) => {
                let report = check_free_space(dir.as_str(), *available, required_bytes);
                let mut message: String = format_bytes(report.available_bytes);
                message.append(" free at ");
                message.append(report.path.as_str());
                match report.status {
                    DoctorStatus::Passed => DoctorCheck::ok(name, message.as_str()),
                    DoctorStatus::Warn => DoctorCheck::warn(
                        name,
                        message.as_str(),
                        Some("keep more than 5 GiB free for reliable clip creation"),
                    ),
                    DoctorStatus::Error => DoctorCheck::error(
                        name,
                        message.as_str(),
                        Some(
                            "free disk space before recording or choose another output directory",
                        ),
                    ),
                }
            },
            Err(error) => DoctorCheck::error(
                name,
                with_error(dir.as_str(), error.as_str()).as_str(),
                Some("check directory permissions and mounted filesystem state"),
            ),
        },
        Err(error) => DoctorCheck::error(
            name,
            text::join2("could not resolve directory: ", error.as_str()).as_str(),
            Some("set HOME or pass an explicit output directory"),
        ),
    }
}

/// What was found out on the machine.
#[derive(Debug)]
pub struct DoctorFacts {
    pub flatpak: RunOutcome,
    pub gsr_native: RunOutcome,
    pub gsr_flatpak_app: RunOutcome,
    pub gsr_flatpak_help: RunOutcome,
    pub gsr_monitors: RunOutcome,
    pub gsr_monitors_stdout: Vec<u8>,
    pub ffmpeg: RunOutcome,
    pub ffprobe: RunOutcome,
    pub audio_device_set: bool,
    pub localhost: HttpOutcome,
    pub output_dir: String,
    pub output_dir_denied: Option<String>,
    pub output_dir_space: Result<u64, String>,
    pub temp_dir: String,
    pub temp_dir_denied: Option<String>,
    pub temp_dir_space: Result<u64, String>,
    pub config_path: String,
}

pub open spec fn report_checks(f: DoctorFacts) -> Seq<CheckView> {
    seq![
        command_check("Flatpak"@, "flatpak"@, f.flatpak),
        gsr_native_check(f.gsr_native),
        gsr_flatpak_app_check(f.gsr_flatpak_app),
        gsr_flatpak_help_check(f.gsr_flatpak_help),
        monitors_check(f.gsr_monitors, text::text_in(f.gsr_monitors_stdout@)),
        command_check("ffmpeg"@, "ffmpeg"@, f.ffmpeg),
        command_check("ffprobe"@, "ffprobe"@, f.ffprobe),
        audio_check(f.audio_device_set),
        localhost_check(f.localhost),
        writable_check("Output dir writable"@, Ok(f.output_dir), f.output_dir_denied),
        space_check("Output dir free space"@, Ok(f.output_dir), FIVE_GIB, f.output_dir_space),
        writable_check("Temp dir writable"@, Ok(f.temp_dir), f.temp_dir_denied),
        space_check("Temp dir free space"@, Ok(f.temp_dir), FIVE_GIB, f.temp_dir_space),
        passed("Config path"@, f.config_path@),
    ]
}

/// The report on a machine.
pub fn build_report(facts: DoctorFacts) -> (r: DoctorReport)
    ensures
        checks_view(r.checks@) == report_checks(facts),
        r.summary@ == summary_text(report_checks(facts)),
{
    let mut checks: Vec<DoctorCheck> = Vec::new();
    let output_dir: Result<String, String> = Ok(facts.output_dir);
    let temp_dir: Result<String, String> = Ok(facts.temp_dir);
    checks.push(check_command("Flatpak", "flatpak", &facts.flatpak));
    checks.push(check_gsr_native(&facts.gsr_native));
    checks.push(check_gsr_flatpak_app(&facts.gsr_flatpak_app));
    checks.push(check_gsr_flatpak_help(&facts.gsr_flatpak_help));
    checks.push(
        check_gsr_list_monitors(&facts.gsr_monitors, facts.gsr_monitors_stdout.as_slice()),
    );
    checks.push(check_command("ffmpeg", "ffmpeg", &facts.ffmpeg));
    checks.push(check_command("ffprobe", "ffprobe", &facts.ffprobe));
    checks.push(check_audio_config(facts.audio_device_set));
    checks.push(check_war_thunder_localhost(&facts.localhost));
    checks.push(check_writable_dir("Output dir writable", &output_dir, &facts.output_dir_denied));
    checks.push(
        check_free_space_for_doctor(
            "Output dir free space",
            &output_dir,
            FIVE_GIB,
            &facts.output_dir_space,
        ),
    );
    checks.push(check_writable_dir("Temp dir writable", &temp_dir, &facts.temp_dir_denied));
    checks.push(
        check_free_space_for_doctor(
            "Temp dir free space",
            &temp_dir,
            FIVE_GIB,
            &facts.temp_dir_space,
        ),
    );
    checks.push(DoctorCheck::ok("Config path", facts.config_path.as_str()));
    assert(checks_view(checks@) =~= report_checks(facts));
    let summary = summary_for_checks(&checks);
    DoctorReport { checks, summary }
}

/// The directory that the report looks at: the one given, else the one for
/// recordings below the home directory.
pub fn report_output_dir(given: Option<String>, home: Option<&str>) -> (r: String)
    ensures
        r@ == (match given {
            Some(dir) => dir@,
            None => path::joined_path(
                path::joined_path(
                    match home {
                        Some(home) => home@,
                        None => "."@,
                    },
                    "Videos"@,
                ),
                "WarThunder Clips"@,
            ),
        }),
{
    match given {
        Some(dir) => dir,
        None => {
            let home: &str = match home {
                Some(home) => home,
                None => ".",
            };
            path::join_path(path::join_path(home, "Videos").as_str(), "WarThunder Clips")
        },
    }
}


#[derive(Clone, Copy, Debug, PartialEq, Eq, Structural)]
pub enum RequirementStatus {
    Passed,
    Warning,
    Error,
    Missing,
    Unknown,
}

/// Whether one thing that the program needs is there.
#[derive(Debug, PartialEq, Eq)]
pub struct RequirementCheck {
    pub id: String,
    pub label: String,
    pub status: RequirementStatus,
    pub summary: String,
    pub summary_key: Option<String>,
    pub details: Option<String>,
    pub command: Option<String>,
    pub version: Option<String>,
    pub path: Option<String>,
}

/// A requirement with its texts as sequences of characters.
pub ghost struct RequirementView {
    pub id: Seq<char>,
    pub label: Seq<char>,
    pub status: RequirementStatus,
    pub summary: Seq<char>,
    pub summary_key: Option<Seq<char>>,
    pub details: Option<Seq<char>>,
    pub command: Option<Seq<char>>,
    pub version: Option<Seq<char>>,
    pub path: Option<Seq<char>>,
}

impl View for RequirementCheck {
    type V = RequirementView;

    open spec fn view(&self) -> RequirementView {
        RequirementView {
            id: self.id@,
            label: self.label@,
            status: self.status,
            summary: self.summary@,
            summary_key: text::opt_text(self.summary_key),
            details: text::opt_text(self.details),
            command: text::opt_text(self.command),
            version: text::opt_text(self.version),
            path: text::opt_text(self.path),
        }
    }
}

/// A requirement without a version and a path.
pub open spec fn requirement(
    status: RequirementStatus,
    id: Seq<char>,
    label: Seq<char>,
    summary: Seq<char>,
    summary_key: Option<Seq<char>>,
    details: Option<Seq<char>>,
    command: Option<Seq<char>>,
) -> RequirementView {
    RequirementView {
        id,
        label,
        status,
        summary,
        summary_key,
        details,
        command,
        version: None,
        path: None,
    }
}

impl RequirementCheck {
    pub fn ok(
        id: &str,
        label: &str,
        summary: &str,
        summary_key: Option<&str>,
        details: Option<String>,
        command: Option<String>,
        path: Option<String>,
    ) -> (r: Self)
        ensures
            r@ == (RequirementView {
                path: text::opt_text(path),
                ..requirement(
                    RequirementStatus::Passed,
                    id@,
                    label@,
                    summary@,
                    text::opt_str(summary_key),
                    text::opt_text(details),
                    text::opt_text(command),
                )
            }),
    {
        RequirementCheck {
            id: id.to_owned(),
            label: label.to_owned(),
            status: RequirementStatus::Passed,
            summary: summary.to_owned(),
            summary_key: opt_owned(summary_key),
            details,
            command,
            version: None,
            path,
        }
    }

    pub fn warning(
        id: &str,
        label: &str,
        summary: &str,
        summary_key: Option<&str>,
        details: Option<String>,
        command: Option<String>,
    ) -> (r: Self)
        ensures
            r@ == requirement(
                RequirementStatus::Warning,
                id@,
                label@,
                summary@,
                text::opt_str(summary_key),
                text::opt_text(details),
                text::opt_text(command),
            ),
    {
        RequirementCheck {
            id: id.to_owned(),
            label: label.to_owned(),
            status: RequirementStatus::Warning,
            summary: summary.to_owned(),
            summary_key: opt_owned(summary_key),
            details,
            command,
            version: None,
            path: None,
        }
    }

    pub fn error(
        id: &str,
        label: &str,
        summary: &str,
        summary_key: Option<&str>,
        details: Option<String>,
        command: Option<String>,
    ) -> (r: Self)
        ensures
            r@ == requirement(
                RequirementStatus::Error,
                id@,
                label@,
                summary@,
                text::opt_str(summary_key),
                text::opt_text(details),
                text::opt_text(command),
            ),
    {
        RequirementCheck {
            id: id.to_owned(),
            label: label.to_owned(),
            status: RequirementStatus::Error,
            summary: summary.to_owned(),
            summary_key: opt_owned(summary_key),
            details,
            command,
            version: None,
            path: None,
        }
    }

    pub fn missing(
        id: &str,
        label: &str,
        summary: &str,
        summary_key: Option<&str>,
        details: Option<String>,
        command: Option<String>,
    ) -> (r: Self)
        ensures
            r@ == requirement(
                RequirementStatus::Missing,
                id@,
                label@,
                summary@,
                text::opt_str(summary_key),
                text::opt_text(details),
                text::opt_text(command),
            ),
    {
        RequirementCheck {
            id: id.to_owned(),
            label: label.to_owned(),
            status: RequirementStatus::Missing,
            summary: summary.to_owned(),
            summary_key: opt_owned(summary_key),
            details,
            command,
            version: None,
            path: None,
        }
    }

    pub fn unknown(
        id: &str,
        label: &str,
        summary: &str,
        summary_key: Option<&str>,
        details: Option<String>,
    ) -> (r: Self)
        ensures
            r@ == requirement(
                RequirementStatus::Unknown,
                id@,
                label@,
                summary@,
                text::opt_str(summary_key),
                text::opt_text(details),
                None,
            ),
    {
        RequirementCheck {
            id: id.to_owned(),
            label: label.to_owned(),
            status: RequirementStatus::Unknown,
            summary: summary.to_owned(),
            summary_key: opt_owned(summary_key),
            details,
            command: None,
            version: None,
            path: None,
        }
    }

    pub fn with_version(self, version: Option<String>) -> (r: Self)
        ensures
            r@ == (RequirementView { version: text::opt_text(version), ..self@ }),
    {
        let mut r = self;
        r.version = version;
        r
    }
}

/// How to install what may be missing.
#[derive(Debug, PartialEq, Eq)]
pub struct InstallCommands {
    pub install_gsr_flatpak: String,
    pub install_ffmpeg_apt: String,
    pub install_ffmpeg_pacman: String,
    pub install_ffmpeg_dnf: String,
    pub install_flatpak_apt: String,
}

pub open spec fn gsr_install() -> Seq<char> {
    "flatpak install flathub com.dec05eba.gpu_screen_recorder"@
}

pub open spec fn ffmpeg_install() -> Seq<char> {
    "sudo apt install ffmpeg"@
}

pub open spec fn flatpak_install() -> Seq<char> {
    "sudo apt install flatpak"@
}

pub fn install_commands() -> (r: InstallCommands)
    ensures
        r.install_gsr_flatpak@ == gsr_install(),
        r.install_ffmpeg_apt@ == ffmpeg_install(),
        r.install_ffmpeg_pacman@ == "sudo pacman -S ffmpeg"@,
        r.install_ffmpeg_dnf@ == "sudo dnf install ffmpeg"@,
        r.install_flatpak_apt@ == flatpak_install(),
{
    InstallCommands {
        install_gsr_flatpak: "flatpak install flathub com.dec05eba.gpu_screen_recorder".to_owned(),
        install_ffmpeg_apt: "sudo apt install ffmpeg".to_owned(),
        install_ffmpeg_pacman: "sudo pacman -S ffmpeg".to_owned(),
        install_ffmpeg_dnf: "sudo dnf install ffmpeg".to_owned(),
        install_flatpak_apt: "sudo apt install flatpak".to_owned(),
    }
}

/// What running a program to find out about it gave.
#[derive(Debug, PartialEq, Eq)]
pub struct CommandProbe {
    pub status: RequirementStatus,
    pub summary: String,
    pub details: Option<String>,
    pub version: Option<String>,
    pub path: Option<String>,
    pub output: Option<String>,
}

pub ghost struct ProbeView {
    pub status: RequirementStatus,
    pub summary: Seq<char>,
    pub details: Option<Seq<char>>,
    pub version: Option<Seq<char>>,
    pub path: Option<Seq<char>>,
    pub output: Option<Seq<char>>,
}

impl View for CommandProbe {
    type V = ProbeView;

    open spec fn view(&self) -> ProbeView {
        ProbeView {
            status: self.status,
            summary: self.summary@,
            details: text::opt_text(self.details),
            version: text::opt_text(self.version),
            path: text::opt_text(self.path),
            output: text::opt_text(self.output),
        }
    }
}

/// The first of the lines that is not blank, trimmed and cut to 240 characters.
pub open spec fn first_useful(lines: Seq<Seq<char>>) -> Option<Seq<char>>
    decreases lines.len(),
{
    if lines.len() == 0 {
        None
    } else {
        let line = text::trim_of(lines[0]);
        if line.len() == 0 {
            first_useful(lines.drop_first())
        } else if line.len() > 240 {
            Some(line.subrange(0, 240))
        } else {
            Some(line)
        }
    }
}

pub fn first_useful_line(printed: &str) -> (r: Option<String>)
    ensures
        text::opt_text(r) == first_useful(text::lines_of(printed@)),
{
    let lines = text::lines(printed);
    let ghost all = text::texts(lines@);
    let mut i: usize = 0;
    assert(all.subrange(0, all.len() as int) == all);
    while i < lines.len()
        invariant
            i <= lines.len(),
            all == text::texts(lines@),
            all == text::lines_of(printed@),
            first_useful(all) == first_useful(all.subrange(i as int, all.len() as int)),
        decreases lines.len() - i,
    {
        let ghost rest = all.subrange(i as int, all.len() as int);
        assert(rest.drop_first() == all.subrange(i + 1, all.len() as int));
        assert(rest[0] == lines@[i as int]@);
        let line = text::trim(lines[i].as_str());
        if !line.is_empty() {
            let len: usize = line.unicode_len();
            return if len > 240 {
                Some(line.substring_char(0, 240).to_owned())
            } else {
                Some(line.to_owned())
            };
        }
        i = i + 1;
    }
    None
}

/// What was printed to the two outputs, trimmed, on lines of their own.
pub open spec fn combined(stdout: Seq<char>, stderr: Seq<char>) -> Seq<char> {
    let a = text::trim_of(stdout);
    let b = text::trim_of(stderr);
    if a.len() == 0 {
        b
    } else if b.len() == 0 {
        a
    } else {
        a + "\n"@ + b
    }
}

pub fn combined_output(stdout: &str, stderr: &str) -> (r: String)
    ensures
        r@ == combined(stdout@, stderr@),
{
    let a = text::trim(stdout);
    let b = text::trim(stderr);
    if a.is_empty() {
        b.to_owned()
    } else if b.is_empty() {
        a.to_owned()
    } else {
        let mut r: String = text::join2(a, "\n");
        r.append(b);
        r
    }
}

pub open spec fn or_else(a: Option<Seq<char>>, b: Option<Seq<char>>) -> Option<Seq<char>> {
    match a {
        Some(_) => a,
        None => b,
    }
}

fn first_of(a: Option<String>, b: Option<String>) -> (r: Option<String>)
    ensures
        text::opt_text(r) == or_else(text::opt_text(a), text::opt_text(b)),
{
    match a {
        Some(a) => Some(a),
        None => b,
    }
}

/// What a program that ran says of itself, given what it printed.
pub open spec fn ran_probe(
    success: bool,
    status: Seq<char>,
    stdout: Seq<char>,
    stderr: Seq<char>,
    found_at: Option<Seq<char>>,
) -> ProbeView {
    let out_line = first_useful(text::lines_of(stdout));
    let err_line = first_useful(text::lines_of(stderr));
    if success {
        ProbeView {
            status: RequirementStatus::Passed,
            summary: "available"@,
            details: or_else(out_line, err_line),
            version: or_else(out_line, err_line),
            path: found_at,
            output: Some(combined(stdout, stderr)),
        }
    } else {
        ProbeView {
            status: RequirementStatus::Error,
            summary: "command exited with status "@ + status,
            details: or_else(
                or_else(err_line, out_line),
                Some("command exited with status "@ + status),
            ),
            version: out_line,
            path: found_at,
            output: Some(combined(stdout, stderr)),
        }
    }
}

/// What a program that ran says of itself, given what it printed.
pub fn probe_from_text(
    success: bool,
    status: &str,
    stdout: &str,
    stderr: &str,
    found_at: Option<String>,
) -> (r: CommandProbe)
    ensures
        r@ == ran_probe(success, status@, stdout@, stderr@, text::opt_text(found_at)),
{
    let output = combined_output(stdout, stderr);
    if success {
        let version = first_of(first_useful_line(stdout), first_useful_line(stderr));
        CommandProbe {
            status: RequirementStatus::Passed,
            summary: "available".to_owned(),
            details: text::clone_opt_text(&version),
            version,
            path: found_at,
            output: Some(output),
        }
    } else {
        let summary = text::join2("command exited with status ", status);
        let line = first_of(first_useful_line(stderr), first_useful_line(stdout));
        CommandProbe {
            status: RequirementStatus::Error,
            details: first_of(line, Some(summary.clone())),
            summary,
            version: first_useful_line(stdout),
            path: found_at,
            output: Some(output),
        }
    }
}

/// How running a program to find out about it went.
#[derive(Debug)]
pub enum ProbeOutcome {
    Ran { success: bool, status: String, stdout: Vec<u8>, stderr: Vec<u8> },
    NotFound(String),
    NotRun(String),
}

pub open spec fn probe_of(
    program: Seq<char>,
    outcome: ProbeOutcome,
    found_at: Option<Seq<char>>,
) -> ProbeView {
    match outcome {
        ProbeOutcome::Ran { success, status, stdout, stderr } => ran_probe(
            success,
            status@,
            text::text_in(stdout@),
            text::text_in(stderr@),
            found_at,
        ),
        ProbeOutcome::NotFound(error) => ProbeView {
            status: RequirementStatus::Missing,
            summary: program + " not found"@,
            details: Some(error@),
            version: None,
            path: None,
            output: None,
        },
        ProbeOutcome::NotRun(error) => ProbeView {
            status: RequirementStatus::Error,
            summary: "could not run "@ + program,
            details: Some(error@),
            version: None,
            path: None,
            output: None,
        },
    }
}

/// What is known of a program after an attempt to run it. `found_at` is where
/// the search path has it.
pub fn run_command_probe(program: &str, outcome: ProbeOutcome, found_at: Option<String>) -> (r:
    CommandProbe)
    ensures
        r@ == probe_of(program@, outcome, text::opt_text(found_at)),
{
    match outcome {
        ProbeOutcome::Ran { success, status, stdout, stderr } => {
            let out = text::from_utf8_lossy(stdout.as_slice());
            let err = text::from_utf8_lossy(stderr.as_slice());
            probe_from_text(success, status.as_str(), out.as_str(), err.as_str(), found_at)
        },
        ProbeOutcome::NotFound(error) => CommandProbe {
            status: RequirementStatus::Missing,
            summary: text::join2(program, " not found"),
            details: Some(error),
            version: None,
            path: None,
            output: None,
        },
        ProbeOutcome::NotRun(error) => CommandProbe {
            status: RequirementStatus::Error,
            summary: text::join2("could not run ", program),
            details: Some(error),
            version: None,
            path: None,
            output: None,
        },
    }
}

/// The key under which a summary is translated.
pub open spec fn summary_key_of(id: Seq<char>, status: RequirementStatus) -> Option<Seq<char>> {
    match status {
        RequirementStatus::Passed => if id == "flatpak"@ {
            Some("diagnostics.summary.flatpakAvailable"@)
        } else if id == "gsr_native"@ {
            Some("diagnostics.summary.gsrNativeAvailable"@)
        } else if id == "ffmpeg"@ {
            Some("diagnostics.summary.ffmpegAvailable"@)
        } else if id == "ffprobe"@ {
            Some("diagnostics.summary.ffprobeAvailable"@)
        } else if id == "output_dir"@ || id == "config_dir"@ {
            Some("diagnostics.summary.directoryWritable"@)
        } else {
            None
        },
        RequirementStatus::Missing => if id == "flatpak"@ {
            Some("diagnostics.summary.flatpakMissing"@)
        } else if id == "gsr_native"@ {
            Some("diagnostics.summary.gsrNativeMissing"@)
        } else if id == "ffmpeg"@ {
            Some("diagnostics.summary.ffmpegMissing"@)
        } else if id == "ffprobe"@ {
            Some("diagnostics.summary.ffprobeMissing"@)
        } else {
            None
        },
        _ => None,
    }
}

pub fn default_summary_key(id: &str, status: RequirementStatus) -> (r: Option<&'static str>)
    ensures
        text::opt_str(r) == summary_key_of(id@, status),
{
    match status {
        RequirementStatus::Passed => {
            if text::same(id, "flatpak") {
                Some("diagnostics.summary.flatpakAvailable")
            } else if text::same(id, "gsr_native") {
                Some("diagnostics.summary.gsrNativeAvailable")
            } else if text::same(id, "ffmpeg") {
                Some("diagnostics.summary.ffmpegAvailable")
            } else if text::same(id, "ffprobe") {
                Some("diagnostics.summary.ffprobeAvailable")
            } else if text::same(id, "output_dir") || text::same(id, "config_dir") {
                Some("diagnostics.summary.directoryWritable")
            } else {
                None
            }
        },
        RequirementStatus::Missing => {
            if text::same(id, "flatpak") {
                Some("diagnostics.summary.flatpakMissing")
            } else if text::same(id, "gsr_native") {
                Some("diagnostics.summary.gsrNativeMissing")
            } else if text::same(id, "ffmpeg") {
                Some("diagnostics.summary.ffmpegMissing")
            } else if text::same(id, "ffprobe") {
                Some("diagnostics.summary.ffprobeMissing")
            } else {
                None
            }
        },
        _ => None,
    }
}

/// What a probe means for the requirement.
pub open spec fn probed(
    id: Seq<char>,
    label: Seq<char>,
    probe: ProbeView,
    ok_summary: Seq<char>,
    missing_summary: Seq<char>,
    install_command: Option<Seq<char>>,
) -> RequirementView {
    match probe.status {
        RequirementStatus::Passed => RequirementView {
            path: probe.path,
            version: probe.version,
            ..requirement(
                RequirementStatus::Passed,
                id,
                label,
                ok_summary,
                summary_key_of(id, RequirementStatus::Passed),
                probe.details,
                None,
            )
        },
        RequirementStatus::Missing => requirement(
            RequirementStatus::Missing,
            id,
            label,
            missing_summary,
            summary_key_of(id, RequirementStatus::Missing),
            probe.details,
            install_command,
        ),
        _ => requirement(
            RequirementStatus::Error,
            id,
            label,
            probe.summary,
            summary_key_of(id, RequirementStatus::Error),
            probe.details,
            install_command,
        ),
    }
}

pub fn requirement_from_probe(
    id: &str,
    label: &str,
    probe: CommandProbe,
    ok_summary: &str,
    missing_summary: &str,
    install_command: Option<String>,
) -> (r: RequirementCheck)
    ensures
        r@ == probed(
            id@,
            label@,
            probe@,
            ok_summary@,
            missing_summary@,
            text::opt_text(install_command),
        ),
{
    match probe.status {
        RequirementStatus::Passed => RequirementCheck::ok(
            id,
            label,
            ok_summary,
            default_summary_key(id, RequirementStatus::Passed),
            probe.details,
            None,
            probe.path,
        ).with_version(probe.version),
        RequirementStatus::Missing => RequirementCheck::missing(
            id,
            label,
            missing_summary,
            default_summary_key(id, RequirementStatus::Missing),
            probe.details,
            install_command,
        ),
        _ => RequirementCheck::error(
            id,
            label,
            probe.summary.as_str(),
            default_summary_key(id, RequirementStatus::Error),
            probe.details,
            install_command,
        ),
    }
}

pub open spec fn flatpak_requirement(probe: ProbeView) -> RequirementView {
    probed(
        "flatpak"@,
        "Flatpak"@,
        probe,
        "Flatpak is available."@,
        "Flatpak is not installed."@,
        Some(flatpak_install()),
    )
}

pub fn check_flatpak_requirement(probe: CommandProbe) -> (r: RequirementCheck)
    ensures
        r@ == flatpak_requirement(probe@),
{
    requirement_from_probe(
        "flatpak",
        "Flatpak",
        probe,
        "Flatpak is available.",
        "Flatpak is not installed.",
        Some(install_commands().install_flatpak_apt),
    )
}

pub open spec fn gsr_native_requirement(probe: ProbeView) -> RequirementView {
    probed(
        "gsr_native"@,
        "GPU Screen Recorder Native"@,
        probe,
        "GSR native command is available."@,
        "GSR native command is not installed."@,
        None,
    )
}

pub fn check_gsr_native_requirement(probe: CommandProbe) -> (r: RequirementCheck)
    ensures
        r@ == gsr_native_requirement(probe@),
{
    requirement_from_probe(
        "gsr_native",
        "GPU Screen Recorder Native",
        probe,
        "GSR native command is available.",
        "GSR native command is not installed.",
        None,
    )
}

pub open spec fn tool_requirement(id: Seq<char>, label: Seq<char>, probe: ProbeView) -> RequirementView {
    probed(
        id,
        label,
        probe,
        label + " is available."@,
        label + " is not installed."@,
        Some(ffmpeg_install()),
    )
}

pub fn check_versioned_command_requirement(
    id: &str,
    label: &str,
    probe: CommandProbe,
    install_command: Option<String>,
) -> (r: RequirementCheck)
    ensures
        r@ == probed(
            id@,
            label@,
            probe@,
            label@ + " is available."@,
            label@ + " is not installed."@,
            text::opt_text(install_command),
        ),
{
    let ok_summary = text::join2(label, " is available.");
    let missing_summary = text::join2(label, " is not installed.");
    requirement_from_probe(
        id,
        label,
        probe,
        ok_summary.as_str(),
        missing_summary.as_str(),
        install_command,
    )
}

pub open spec fn info_installed(info: ProbeView) -> bool {
    info.status is Passed
}

pub fn flatpak_gsr_info_is_installed(probe: &CommandProbe) -> (r: bool)
    ensures
        r == info_installed(probe@),
{
    probe.status == RequirementStatus::Passed
}

/// The recorder's command answered: with success, or with its usage.
pub open spec fn binary_reachable(probe: ProbeView) -> bool {
    let printed = text::ascii_lowered(
        match or_else(probe.output, probe.details) {
            Some(t) => t,
            None => seq![],
        },
    );
    ||| probe.status is Passed
    ||| text::occurs_in(printed, "usage:"@)
    ||| text::occurs_in(printed, "gpu-screen-recorder"@)
    ||| text::occurs_in(
        printed,
        "-w <window_id|monitor|focused|portal|region|v4l2_device_path>"@,
    )
}

pub fn gsr_flatpak_binary_reachable(probe: &CommandProbe) -> (r: bool)
    ensures
        r == binary_reachable(probe@),
{
    if probe.status == RequirementStatus::Passed {
        return true;
    }
    let printed: String = match &probe.output {
        Some(t) => text::to_ascii_lowercase(t.as_str()),
        None => match &probe.details {
            Some(t) => text::to_ascii_lowercase(t.as_str()),
            None => {
                let empty: String = String::new();
                assert(empty@ =~= text::ascii_lowered(Seq::<char>::empty()));
                empty
            },
        },
    };
    text::contains(printed.as_str(), "usage:") || text::contains(
        printed.as_str(),
        "gpu-screen-recorder",
    ) || text::contains(
        printed.as_str(),
        "-w <window_id|monitor|focused|portal|region|v4l2_device_path>",
    )
}

pub open spec fn gsr_flatpak_requirement(
    flatpak_missing: bool,
    info: ProbeView,
    help: ProbeView,
) -> RequirementView {
    if flatpak_missing {
        requirement(
            RequirementStatus::Warning,
            "gsr_flatpak"@,
            "GPU Screen Recorder Flatpak"@,
            "Flatpak is missing, so WT Clip cannot check the GSR Flatpak app."@,
            Some("diagnostics.summary.gsrFlatpakFlatpakMissing"@),
            Some("Install Flatpak first, then install com.dec05eba.gpu_screen_recorder."@),
            Some(gsr_install()),
        )
    } else if !info_installed(info) {
        requirement(
            RequirementStatus::Missing,
            "gsr_flatpak"@,
            "GPU Screen Recorder Flatpak"@,
            "GSR Flatpak app is not installed."@,
            Some("diagnostics.summary.gsrFlatpakMissing"@),
            info.details,
            Some(gsr_install()),
        )
    } else if binary_reachable(help) {
        RequirementView {
            version: or_else(info.version, help.version),
            ..requirement(
                RequirementStatus::Passed,
                "gsr_flatpak"@,
                "GPU Screen Recorder Flatpak"@,
                "GPU Screen Recorder Flatpak is available."@,
                Some("diagnostics.summary.gsrFlatpakAvailable"@),
                help.details,
                Some(
                    "flatpak run --command=gpu-screen-recorder com.dec05eba.gpu_screen_recorder"@,
                ),
            )
        }
    } else {
        requirement(
            RequirementStatus::Warning,
            "gsr_flatpak"@,
            "GPU Screen Recorder Flatpak"@,
            "GSR Flatpak is installed, but the recorder command could not be verified."@,
            Some("diagnostics.summary.gsrFlatpakCommandFailed"@),
            help.details,
            Some(gsr_install()),
        )
    }
}

pub fn check_gsr_flatpak_requirement(
    flatpak: &RequirementCheck,
    info: CommandProbe,
    help: CommandProbe,
) -> (r: RequirementCheck)
    ensures
        r@ == gsr_flatpak_requirement(flatpak.status is Missing, info@, help@),
{
    if flatpak.status == RequirementStatus::Missing {
        return RequirementCheck::warning(
            "gsr_flatpak",
            "GPU Screen Recorder Flatpak",
            "Flatpak is missing, so WT Clip cannot check the GSR Flatpak app.",
            Some("diagnostics.summary.gsrFlatpakFlatpakMissing"),
            Some(
                "Install Flatpak first, then install com.dec05eba.gpu_screen_recorder.".to_owned(),
            ),
            Some(install_commands().install_gsr_flatpak),
        );
    }
    if !flatpak_gsr_info_is_installed(&info) {
        return RequirementCheck::missing(
            "gsr_flatpak",
            "GPU Screen Recorder Flatpak",
            "GSR Flatpak app is not installed.",
            Some("diagnostics.summary.gsrFlatpakMissing"),
            info.details,
            Some(install_commands().install_gsr_flatpak),
        );
    }
    if gsr_flatpak_binary_reachable(&help) {
        RequirementCheck {
            id: "gsr_flatpak".to_owned(),
            label: "GPU Screen Recorder Flatpak".to_owned(),
            status: RequirementStatus::Passed,
            summary: "GPU Screen Recorder Flatpak is available.".to_owned(),
            summary_key: Some("diagnostics.summary.gsrFlatpakAvailable".to_owned()),
            details: help.details,
            command: Some(
                "flatpak run --command=gpu-screen-recorder com.dec05eba.gpu_screen_recorder".to_owned(),
            ),
            version: first_of(info.version, help.version),
            path: None,
        }
    } else {
        RequirementCheck::warning(
            "gsr_flatpak",
            "GPU Screen Recorder Flatpak",
            "GSR Flatpak is installed, but the recorder command could not be verified.",
            Some("diagnostics.summary.gsrFlatpakCommandFailed"),
            help.details,
            Some(install_commands().install_gsr_flatpak),
        )
    }
}

/// The two ways to install the recorder, seen from the configured one: a
/// warning on that one where only the other is there, and an error on both
/// where both are missing.
pub open spec fn mode_warned(
    mode: GpuScreenRecorderMode,
    flatpak: RequirementView,
    native: RequirementView,
) -> (RequirementView, RequirementView) {
    let flatpak_ok = flatpak.status is Passed;
    let native_ok = native.status is Passed;
    if mode is Flatpak && !flatpak_ok && native_ok {
        (
            RequirementView {
                status: RequirementStatus::Warning,
                summary: "GSR native is installed, but WT Clip is configured to use Flatpak."@,
                summary_key: Some(
                    "diagnostics.summary.gsrNativeInstalledButFlatpakConfigured"@,
                ),
                ..flatpak
            },
            native,
        )
    } else if mode is Native && !native_ok && flatpak_ok {
        (
            flatpak,
            RequirementView {
                status: RequirementStatus::Warning,
                summary: "GSR Flatpak is installed, but WT Clip is configured to use native."@,
                summary_key: Some(
                    "diagnostics.summary.gsrFlatpakInstalledButNativeConfigured"@,
                ),
                ..native
            },
        )
    } else if !(mode is Auto) && flatpak.status is Missing && native.status is Missing {
        (
            RequirementView {
                status: RequirementStatus::Error,
                summary: "GPU Screen Recorder is missing."@,
                summary_key: Some("diagnostics.summary.gpuScreenRecorderMissing"@),
                ..flatpak
            },
            RequirementView {
                status: RequirementStatus::Error,
                summary: "GPU Screen Recorder is missing."@,
                summary_key: Some("diagnostics.summary.gpuScreenRecorderMissing"@),
                ..native
            },
        )
    } else {
        (flatpak, native)
    }
}

pub fn apply_gsr_mode_warning(
    mode: &GpuScreenRecorderMode,
    gsr_flatpak: &mut RequirementCheck,
    gsr_native: &mut RequirementCheck,
)
    ensures
        (final(gsr_flatpak)@, final(gsr_native)@) == mode_warned(
            *mode,
            old(gsr_flatpak)@,
            old(gsr_native)@,
        ),
{
    let flatpak_ok: bool = gsr_flatpak.status == RequirementStatus::Passed;
    let native_ok: bool = gsr_native.status == RequirementStatus::Passed;
    if *mode == GpuScreenRecorderMode::Flatpak && !flatpak_ok && native_ok {
        gsr_flatpak.status = RequirementStatus::Warning;
        gsr_flatpak.summary =
            "GSR native is installed, but WT Clip is configured to use Flatpak.".to_owned();
        gsr_flatpak.summary_key = Some(
            "diagnostics.summary.gsrNativeInstalledButFlatpakConfigured".to_owned(),
        );
    } else if *mode == GpuScreenRecorderMode::Native && !native_ok && flatpak_ok {
        gsr_native.status = RequirementStatus::Warning;
        gsr_native.summary =
            "GSR Flatpak is installed, but WT Clip is configured to use native.".to_owned();
        gsr_native.summary_key = Some(
            "diagnostics.summary.gsrFlatpakInstalledButNativeConfigured".to_owned(),
        );
    } else if *mode != GpuScreenRecorderMode::Auto && gsr_flatpak.status
        == RequirementStatus::Missing && gsr_native.status == RequirementStatus::Missing {
        gsr_flatpak.status = RequirementStatus::Error;
        gsr_native.status = RequirementStatus::Error;
        gsr_flatpak.summary = "GPU Screen Recorder is missing.".to_owned();
        gsr_native.summary = "GPU Screen Recorder is missing.".to_owned();
        gsr_flatpak.summary_key = Some(
            "diagnostics.summary.gpuScreenRecorderMissing".to_owned(),
        );
        gsr_native.summary_key = Some("diagnostics.summary.gpuScreenRecorderMissing".to_owned());
    }
}

/// A recorder that is there is never reported as missing, whatever is configured.
pub proof fn lemma_installed_recorder_is_not_missing(
    mode: GpuScreenRecorderMode,
    flatpak: RequirementView,
    native: RequirementView,
)
    requires
        flatpak.status is Passed || native.status is Passed,
    ensures
        !(mode_warned(mode, flatpak, native).0.status is Error) || flatpak.status is Error,
        !(mode_warned(mode, flatpak, native).1.status is Error) || native.status is Error,
{
}


pub open spec fn api_requirement(
    base_url: Seq<char>,
    connected: bool,
    outcome: HttpOutcome,
) -> RequirementView {
    let url = text::trim_end_char_of(base_url, '/') + "/state"@;
    let id = "war_thunder_api"@;
    let label = "War Thunder API"@;
    let reachable = "War Thunder local API is reachable."@;
    let reachable_key = Some("diagnostics.summary.warThunderReachable"@);
    let waiting = "Waiting for War Thunder. This is normal if the game is closed."@;
    let waiting_key = Some("diagnostics.summary.waitingForWarThunder"@);
    if connected {
        requirement(
            RequirementStatus::Passed,
            id,
            label,
            reachable,
            reachable_key,
            Some("HTTP 200 OK (runtime connected)"@),
            None,
        )
    } else {
        match outcome {
            HttpOutcome::NoClient(error) => requirement(
                RequirementStatus::Unknown,
                id,
                label,
                waiting,
                waiting_key,
                Some("Could not build HTTP client: "@ + error@),
                None,
            ),
            HttpOutcome::Success(status) => requirement(
                RequirementStatus::Passed,
                id,
                label,
                reachable,
                reachable_key,
                Some("GET "@ + url + " returned HTTP "@ + status@),
                None,
            ),
            HttpOutcome::Status(status) => requirement(
                RequirementStatus::Warning,
                id,
                label,
                waiting,
                waiting_key,
                Some("GET "@ + url + " returned HTTP "@ + status@),
                None,
            ),
            HttpOutcome::Unreachable(error) => requirement(
                RequirementStatus::Warning,
                id,
                label,
                waiting,
                waiting_key,
                Some("GET "@ + url + " failed: "@ + error@),
                None,
            ),
        }
    }
}

fn about_request(url: &str, middle: &str, end: &str) -> (r: String)
    ensures
        r@ == "GET "@ + url@ + middle@ + end@,
{
    let mut r: String = text::join2("GET ", url);
    r.append(middle);
    r.append(end);
    r
}

/// The address that tells whether the game answers.
pub fn state_url(base_url: &str) -> (r: String)
    ensures
        r@ == text::trim_end_char_of(base_url@, '/') + "/state"@,
{
    text::join2(text::trim_end_char(base_url, '/'), "/state")
}

pub fn check_war_thunder_api_requirement(
    base_url: &str,
    runtime_connected: Option<bool>,
    outcome: &HttpOutcome,
) -> (r: RequirementCheck)
    ensures
        r@ == api_requirement(base_url@, runtime_connected == Some(true), *outcome),
{
    let url = state_url(base_url);
    let connected: bool = match runtime_connected {
        Some(connected) => connected,
        None => false,
    };
    if connected {
        return RequirementCheck::ok(
            "war_thunder_api",
            "War Thunder API",
            "War Thunder local API is reachable.",
            Some("diagnostics.summary.warThunderReachable"),
            Some("HTTP 200 OK (runtime connected)".to_owned()),
            None,
            None,
        );
    }
    match outcome {
        HttpOutcome::NoClient(error) => RequirementCheck::unknown(
            "war_thunder_api",
            "War Thunder API",
            "Waiting for War Thunder. This is normal if the game is closed.",
            Some("diagnostics.summary.waitingForWarThunder"),
            Some(text::join2("Could not build HTTP client: ", error.as_str())),
        ),
        HttpOutcome::Success(status) => RequirementCheck::ok(
            "war_thunder_api",
            "War Thunder API",
            "War Thunder local API is reachable.",
            Some("diagnostics.summary.warThunderReachable"),
            Some(about_request(url.as_str(), " returned HTTP ", status.as_str())),
            None,
            None,
        ),
        HttpOutcome::Status(status) => RequirementCheck::warning(
            "war_thunder_api",
            "War Thunder API",
            "Waiting for War Thunder. This is normal if the game is closed.",
            Some("diagnostics.summary.waitingForWarThunder"),
            Some(about_request(url.as_str(), " returned HTTP ", status.as_str())),
            None,
        ),
        HttpOutcome::Unreachable(error) => RequirementCheck::warning(
            "war_thunder_api",
            "War Thunder API",
            "Waiting for War Thunder. This is normal if the game is closed.",
            Some("diagnostics.summary.waitingForWarThunder"),
            Some(about_request(url.as_str(), " failed: ", error.as_str())),
            None,
        ),
    }
}

/// A game that is closed is no error.
pub proof fn lemma_closed_game_is_no_error(
    base_url: Seq<char>,
    connected: bool,
    outcome: HttpOutcome,
)
    ensures
        !(api_requirement(base_url, connected, outcome).status is Error),
        !(api_requirement(base_url, connected, outcome).status is Missing),
{
}

/// Can files be written in a directory?
#[derive(Debug)]
pub enum DirectoryWritableStatus {
    Writable(String),
    /// The directory is not there, but it can be made.
    MissingParentWritable(String),
    NotWritable(String, String),
}

/// What was found out about a directory: whether it and the one above it are
/// there, and why a file could not be written, if it could not.
#[derive(Debug)]
pub struct DirectoryFacts {
    pub is_there: bool,
    pub parent_is_there: bool,
    pub write_error: Option<String>,
}

/// A path seen from the working directory.
pub fn absolute_path(p: &str, current_dir: &str) -> (r: String)
    ensures
        r@ == path::joined_path(current_dir@, p@),
{
    path::join_path(current_dir, p)
}

pub open spec fn directory_status_is(
    r: DirectoryWritableStatus,
    dir: Seq<char>,
    facts: DirectoryFacts,
) -> bool {
    if facts.is_there {
        match facts.write_error {
            None => r matches DirectoryWritableStatus::Writable(p) && p@ == dir,
            Some(error) => r matches DirectoryWritableStatus::NotWritable(p, e) && p@ == dir && e@
                == error@,
        }
    } else if path::parent_of(dir) is Some && facts.parent_is_there {
        match facts.write_error {
            None => r matches DirectoryWritableStatus::MissingParentWritable(p) && p@ == dir,
            Some(error) => r matches DirectoryWritableStatus::NotWritable(p, e) && p@ == dir && e@
                == error@,
        }
    } else {
        r matches DirectoryWritableStatus::NotWritable(p, e) && p@ == dir && e@
            == "parent directory does not exist"@
    }
}

pub fn check_writable_directory_path(dir: &str, facts: &DirectoryFacts) -> (r:
    DirectoryWritableStatus)
    ensures
        directory_status_is(r, dir@, *facts),
{
    if facts.is_there {
        return match &facts.write_error {
            None => DirectoryWritableStatus::Writable(dir.to_owned()),
            Some(error) => DirectoryWritableStatus::NotWritable(dir.to_owned(), error.clone()),
        };
    }
    if path::parent(dir).is_some() && facts.parent_is_there {
        match &facts.write_error {
            None => DirectoryWritableStatus::MissingParentWritable(dir.to_owned()),
            Some(error) => DirectoryWritableStatus::NotWritable(dir.to_owned(), error.clone()),
        }
    } else {
        DirectoryWritableStatus::NotWritable(
            dir.to_owned(),
            "parent directory does not exist".to_owned(),
        )
    }
}

pub open spec fn directory_requirement(
    id: Seq<char>,
    label: Seq<char>,
    dir: Result<DirectoryWritableStatus, String>,
) -> RequirementView {
    match dir {
        Err(error) => requirement(
            RequirementStatus::Error,
            id,
            label,
            "Directory path could not be resolved."@,
            Some("diagnostics.summary.directoryNotWritable"@),
            Some(error@),
            None,
        ),
        Ok(DirectoryWritableStatus::Writable(p)) => RequirementView {
            path: Some(p@),
            ..requirement(
                RequirementStatus::Passed,
                id,
                label,
                "Directory exists and is writable."@,
                Some("diagnostics.summary.directoryWritable"@),
                None,
                None,
            )
        },
        Ok(DirectoryWritableStatus::MissingParentWritable(p)) => requirement(
            RequirementStatus::Warning,
            id,
            label,
            "Directory does not exist yet, but the parent is writable."@,
            Some("diagnostics.summary.directoryParentWritable"@),
            Some(p@),
            None,
        ),
        Ok(DirectoryWritableStatus::NotWritable(p, error)) => requirement(
            RequirementStatus::Error,
            id,
            label,
            "Directory is not writable."@,
            Some("diagnostics.summary.directoryNotWritable"@),
            Some(in_parens(p@, error@)),
            None,
        ),
    }
}

pub fn check_directory_requirement(
    id: &str,
    label: &str,
    dir: Result<DirectoryWritableStatus, String>,
) -> (r: RequirementCheck)
    ensures
        r@ == directory_requirement(id@, label@, dir),
{
    match dir {
        Err(error) => RequirementCheck::error(
            id,
            label,
            "Directory path could not be resolved.",
            Some("diagnostics.summary.directoryNotWritable"),
            Some(error),
            None,
        ),
        Ok(DirectoryWritableStatus::Writable(p)) => RequirementCheck::ok(
            id,
            label,
            "Directory exists and is writable.",
            Some("diagnostics.summary.directoryWritable"),
            None,
            None,
            Some(p),
        ),
        Ok(DirectoryWritableStatus::MissingParentWritable(p)) => RequirementCheck::warning(
            id,
            label,
            "Directory does not exist yet, but the parent is writable.",
            Some("diagnostics.summary.directoryParentWritable"),
            Some(p),
            None,
        ),
        Ok(DirectoryWritableStatus::NotWritable(p, error)) => RequirementCheck::error(
            id,
            label,
            "Directory is not writable.",
            Some("diagnostics.summary.directoryNotWritable"),
            Some(with_error(p.as_str(), error.as_str())),
            None,
        ),
    }
}

#[derive(Debug)]
pub struct DiagnosticLogsSummary {
    pub recent_logs: Vec<String>,
    pub logs_path: Option<String>,
    pub can_copy_logs: bool,
}

/// What the running program knows.
#[derive(Debug, Default)]
pub struct DiagnosticRuntimeContext {
    pub war_thunder_connected: Option<bool>,
    pub effective_target: Option<String>,
    pub target_reason: Option<String>,
    pub gsr_command_line: Option<String>,
    pub recent_logs: Vec<String>,
}

/// The log with the recorder's command behind it, and a word in place of an
/// empty one.
pub open spec fn logs_with_command(logs: Seq<Seq<char>>, command: Option<Seq<char>>) -> Seq<
    Seq<char>,
> {
    let with_command = if command matches Some(line) && text::trim_of(line).len() > 0 {
        logs.push("[GPU_RECORDER] command: "@ + command->0)
    } else {
        logs
    };
    if with_command.len() == 0 {
        seq!["No persistent log file configured yet."@]
    } else {
        with_command
    }
}

pub fn diagnostic_logs_with_command(
    recent_logs: Vec<String>,
    gsr_command_line: &Option<String>,
) -> (r: Vec<String>)
    ensures
        text::texts(r@) == logs_with_command(
            text::texts(recent_logs@),
            text::opt_text(*gsr_command_line),
        ),
{
    let mut logs = recent_logs;
    let ghost before = text::texts(logs@);
    if let Some(command) = gsr_command_line {
        if !text::trim(command.as_str()).is_empty() {
            let line = text::join2("[GPU_RECORDER] command: ", command.as_str());
            logs.push(line);
            assert(text::texts(logs@) =~= before.push(line@));
        }
    }
    if logs.len() == 0 {
        assert(text::texts(logs@).len() == 0);
        logs.push("No persistent log file configured yet.".to_owned());
        assert(text::texts(logs@) =~= seq!["No persistent log file configured yet."@]);
    } else {
        assert(text::texts(logs@).len() > 0);
    }
    logs
}

/// Everything that the program needs, and whether it is there.
#[derive(Debug)]
pub struct SystemRequirementsReport {
    pub app_version: String,
    pub os: Option<String>,
    pub session_type: Option<String>,
    pub war_thunder_api: RequirementCheck,
    pub flatpak: RequirementCheck,
    pub gsr_flatpak: RequirementCheck,
    pub gsr_native: RequirementCheck,
    pub ffmpeg: RequirementCheck,
    pub ffprobe: RequirementCheck,
    pub capture_mode: String,
    pub capture_strategy: String,
    pub configured_target: String,
    pub effective_target: Option<String>,
    pub target_reason: Option<String>,
    pub output_dir: RequirementCheck,
    pub config_dir: RequirementCheck,
    pub install_commands: InstallCommands,
    pub logs: DiagnosticLogsSummary,
}

/// What was found out about what the program needs.
#[derive(Debug)]
pub struct RequirementFacts {
    pub app_version: String,
    pub os: String,
    pub session_type: Option<String>,
    pub api: HttpOutcome,
    pub flatpak: CommandProbe,
    pub gsr_info: CommandProbe,
    pub gsr_help: CommandProbe,
    pub gsr_native: CommandProbe,
    pub ffmpeg: CommandProbe,
    pub ffprobe: CommandProbe,
    pub output_dir: Result<DirectoryWritableStatus, String>,
    pub config_dir: DirectoryWritableStatus,
}

pub open spec fn mode_label(mode: GpuScreenRecorderMode) -> Seq<char> {
    match mode {
        GpuScreenRecorderMode::Auto => "auto"@,
        GpuScreenRecorderMode::Native => "native"@,
        GpuScreenRecorderMode::Flatpak => "flatpak"@,
    }
}

fn recorder_mode_label(mode: GpuScreenRecorderMode) -> (r: &'static str)
    ensures
        r@ == mode_label(mode),
{
    match mode {
        GpuScreenRecorderMode::Auto => "auto",
        GpuScreenRecorderMode::Native => "native",
        GpuScreenRecorderMode::Flatpak => "flatpak",
    }
}

impl SystemRequirementsReport {
    pub open spec fn reports(
        self,
        config: AppConfig,
        runtime: DiagnosticRuntimeContext,
        f: RequirementFacts,
    ) -> bool {
        let flatpak = flatpak_requirement(f.flatpak@);
        let recorders = mode_warned(
            config.capture.gpu_screen_recorder_mode,
            gsr_flatpak_requirement(flatpak.status is Missing, f.gsr_info@, f.gsr_help@),
            gsr_native_requirement(f.gsr_native@),
        );
        &&& self.app_version@ == f.app_version@
        &&& self.os == Some(f.os)
        &&& self.session_type == f.session_type
        &&& self.war_thunder_api@ == api_requirement(
            config.war_thunder.base_url@,
            runtime.war_thunder_connected == Some(true),
            f.api,
        )
        &&& self.flatpak@ == flatpak
        &&& self.gsr_flatpak@ == recorders.0
        &&& self.gsr_native@ == recorders.1
        &&& self.ffmpeg@ == tool_requirement("ffmpeg"@, "FFmpeg"@, f.ffmpeg@)
        &&& self.ffprobe@ == tool_requirement("ffprobe"@, "FFprobe"@, f.ffprobe@)
        &&& self.capture_mode@ == mode_label(config.capture.gpu_screen_recorder_mode)
        &&& self.capture_strategy@ == gpu_screen_recorder::strategy_label(
            config.capture.capture_strategy,
        )
        &&& self.configured_target@ == config.capture.target@
        &&& self.effective_target == runtime.effective_target
        &&& self.target_reason == runtime.target_reason
        &&& self.output_dir@ == directory_requirement(
            "output_dir"@,
            "Output directory"@,
            f.output_dir,
        )
        &&& self.config_dir@ == directory_requirement(
            "config_dir"@,
            "Config directory"@,
            Ok(f.config_dir),
        )
        &&& self.install_commands.install_gsr_flatpak@ == gsr_install()
        &&& self.install_commands.install_ffmpeg_apt@ == ffmpeg_install()
        &&& self.install_commands.install_ffmpeg_pacman@ == "sudo pacman -S ffmpeg"@
        &&& self.install_commands.install_ffmpeg_dnf@ == "sudo dnf install ffmpeg"@
        &&& self.install_commands.install_flatpak_apt@ == flatpak_install()
        &&& text::texts(self.logs.recent_logs@) == logs_with_command(
            text::texts(runtime.recent_logs@),
            text::opt_text(runtime.gsr_command_line),
        )
        &&& self.logs.logs_path is None
        &&& self.logs.can_copy_logs
    }
}

pub fn build_system_requirements_report(
    config: &AppConfig,
    runtime: DiagnosticRuntimeContext,
    facts: RequirementFacts,
) -> (r: SystemRequirementsReport)
    ensures
        r.reports(*config, runtime, facts),
{
    let flatpak = check_flatpak_requirement(facts.flatpak);
    let mut gsr_flatpak = check_gsr_flatpak_requirement(&flatpak, facts.gsr_info, facts.gsr_help);
    let mut gsr_native = check_gsr_native_requirement(facts.gsr_native);
    apply_gsr_mode_warning(
        &config.capture.gpu_screen_recorder_mode,
        &mut gsr_flatpak,
        &mut gsr_native,
    );
    let war_thunder_api = check_war_thunder_api_requirement(
        config.war_thunder.base_url.as_str(),
        runtime.war_thunder_connected,
        &facts.api,
    );
    let ffmpeg = check_versioned_command_requirement(
        "ffmpeg",
        "FFmpeg",
        facts.ffmpeg,
        Some(install_commands().install_ffmpeg_apt),
    );
    let ffprobe = check_versioned_command_requirement(
        "ffprobe",
        "FFprobe",
        facts.ffprobe,
        Some(install_commands().install_ffmpeg_apt),
    );
    let recent_logs = diagnostic_logs_with_command(
        runtime.recent_logs,
        &runtime.gsr_command_line,
    );
    SystemRequirementsReport {
        app_version: facts.app_version,
        os: Some(facts.os),
        session_type: facts.session_type,
        war_thunder_api,
        flatpak,
        gsr_flatpak,
        gsr_native,
        ffmpeg,
        ffprobe,
        capture_mode: recorder_mode_label(config.capture.gpu_screen_recorder_mode).to_owned(),
        capture_strategy: gpu_screen_recorder::capture_strategy_label(
            config.capture.capture_strategy,
        ).to_owned(),
        configured_target: config.capture.target.clone(),
        effective_target: runtime.effective_target,
        target_reason: runtime.target_reason,
        output_dir: check_directory_requirement(
            "output_dir",
            "Output directory",
            facts.output_dir,
        ),
        config_dir: check_directory_requirement(
            "config_dir",
            "Config directory",
            Ok(facts.config_dir),
        ),
        install_commands: install_commands(),
        logs: DiagnosticLogsSummary { recent_logs, logs_path: None, can_copy_logs: true },
    }
}

pub open spec fn requirement_word(status: RequirementStatus) -> Seq<char> {
    match status {
        RequirementStatus::Passed => "OK"@,
        RequirementStatus::Warning => "Warning"@,
        RequirementStatus::Error => "Error"@,
        RequirementStatus::Missing => "Missing"@,
        RequirementStatus::Unknown => "Unknown"@,
    }
}

pub fn requirement_status_label(status: &RequirementStatus) -> (r: &'static str)
    ensures
        r@ == requirement_word(*status),
{
    match status {
        RequirementStatus::Passed => "OK",
        RequirementStatus::Warning => "Warning",
        RequirementStatus::Error => "Error",
        RequirementStatus::Missing => "Missing",
        RequirementStatus::Unknown => "Unknown",
    }
}

/// `label` and `value` on a line of their own.
pub open spec fn labelled(label: Seq<char>, value: Seq<char>) -> Seq<char> {
    label + value + "\n"@
}

/// The same, where there is a value.
pub open spec fn labelled_opt(label: Seq<char>, value: Option<Seq<char>>) -> Seq<char> {
    match value {
        Some(value) => labelled(label, value),
        None => seq![],
    }
}

fn append_line(out: &mut String, label: &str, value: &str)
    ensures
        final(out)@ == old(out)@ + labelled(label@, value@),
{
    let mut line: String = text::join2(label, value);
    line.append("\n");
    out.append(line.as_str());
}

fn append_opt_line(out: &mut String, label: &str, value: &Option<String>)
    ensures
        final(out)@ == old(out)@ + labelled_opt(label@, text::opt_text(*value)),
{
    match value {
        Some(value) => append_line(out, label, value.as_str()),
        None => {
            assert(out@ + Seq::<char>::empty() =~= out@);
        },
    }
}

/// What is written of one requirement.
pub open spec fn requirement_text(check: RequirementView) -> Seq<char> {
    check.label + ": "@ + requirement_word(check.status) + " - "@ + check.summary + "\n"@
        + labelled_opt("  version: "@, check.version) + labelled_opt("  path: "@, check.path)
        + labelled_opt("  details: "@, check.details)
}

fn append_requirement(out: &mut String, check: &RequirementCheck)
    ensures
        final(out)@ == old(out)@ + requirement_text(check@),
{
    let mut part: String = check.label.clone();
    part.append(": ");
    part.append(requirement_status_label(&check.status));
    part.append(" - ");
    part.append(check.summary.as_str());
    part.append("\n");
    append_opt_line(&mut part, "  version: ", &check.version);
    append_opt_line(&mut part, "  path: ", &check.path);
    append_opt_line(&mut part, "  details: ", &check.details);
    out.append(part.as_str());
}

/// Each of the lines, with a line feed behind it.
pub open spec fn lines_text(lines: Seq<Seq<char>>) -> Seq<char>
    decreases lines.len(),
{
    if lines.len() == 0 {
        seq![]
    } else {
        lines_text(lines.drop_last()) + lines.last() + "\n"@
    }
}

fn lines_joined(lines: &Vec<String>) -> (r: String)
    ensures
        r@ == lines_text(text::texts(lines@)),
{
    let ghost all = text::texts(lines@);
    let mut r: String = String::new();
    let mut i: usize = 0;
    while i < lines.len()
        invariant
            i <= lines.len(),
            all == text::texts(lines@),
            r@ == lines_text(all.subrange(0, i as int)),
        decreases lines.len() - i,
    {
        let ghost next = all.subrange(0, i + 1);
        assert(next.drop_last() == all.subrange(0, i as int));
        assert(next.last() == lines@[i as int]@);
        r.append(lines[i].as_str());
        r.append("\n");
        i = i + 1;
    }
    assert(all.subrange(0, all.len() as int) == all);
    r
}

pub open spec fn or_unknown(value: Option<Seq<char>>) -> Seq<char> {
    match value {
        Some(value) => value,
        None => "unknown"@,
    }
}

/// The head of the written report: the program, the machine and the capture.
pub open spec fn report_head(r: SystemRequirementsReport) -> Seq<char> {
    "WT Clip Diagnostics Report\n==========================\n\n"@ + labelled(
        "Version: "@,
        r.app_version@,
    ) + labelled("OS: "@, or_unknown(text::opt_text(r.os))) + labelled(
        "Session: "@,
        or_unknown(text::opt_text(r.session_type)),
    ) + labelled("Capture mode: "@, r.capture_mode@) + labelled(
        "Capture strategy: "@,
        r.capture_strategy@,
    ) + labelled("Configured target: "@, r.configured_target@) + labelled_opt(
        "Effective target: "@,
        text::opt_text(r.effective_target),
    ) + labelled_opt("Target reason: "@, text::opt_text(r.target_reason)) + "\n"@
}

/// The requirements, one after the other.
pub open spec fn report_requirements(r: SystemRequirementsReport) -> Seq<char> {
    requirement_text(r.war_thunder_api@) + requirement_text(r.flatpak@) + requirement_text(
        r.gsr_flatpak@,
    ) + requirement_text(r.gsr_native@) + requirement_text(r.ffmpeg@) + requirement_text(
        r.ffprobe@,
    ) + requirement_text(r.output_dir@) + requirement_text(r.config_dir@)
}

/// How to install what may be missing.
pub open spec fn report_commands(c: InstallCommands) -> Seq<char> {
    "\nInstall commands:\n"@ + labelled("GSR Flatpak: "@, c.install_gsr_flatpak@) + labelled(
        "Flatpak Debian/Ubuntu/Pop!_OS: "@,
        c.install_flatpak_apt@,
    ) + labelled("FFmpeg Debian/Ubuntu/Pop!_OS: "@, c.install_ffmpeg_apt@) + labelled(
        "FFmpeg Arch: "@,
        c.install_ffmpeg_pacman@,
    ) + labelled("FFmpeg Fedora: "@, c.install_ffmpeg_dnf@)
}

pub open spec fn requirements_text(r: SystemRequirementsReport) -> Seq<char> {
    report_head(r) + report_requirements(r) + report_commands(r.install_commands)
        + "\nRecent logs:\n"@ + lines_text(text::texts(r.logs.recent_logs@))
}

fn head_text(report: &SystemRequirementsReport) -> (r: String)
    ensures
        r@ == report_head(*report),
{
    let os: &str = match &report.os {
        Some(os) => os.as_str(),
        None => "unknown",
    };
    let session: &str = match &report.session_type {
        Some(session) => session.as_str(),
        None => "unknown",
    };
    let mut out: String =
        "WT Clip Diagnostics Report\n==========================\n\n".to_owned();
    append_line(&mut out, "Version: ", report.app_version.as_str());
    append_line(&mut out, "OS: ", os);
    append_line(&mut out, "Session: ", session);
    append_line(&mut out, "Capture mode: ", report.capture_mode.as_str());
    append_line(&mut out, "Capture strategy: ", report.capture_strategy.as_str());
    append_line(&mut out, "Configured target: ", report.configured_target.as_str());
    append_opt_line(&mut out, "Effective target: ", &report.effective_target);
    append_opt_line(&mut out, "Target reason: ", &report.target_reason);
    out.append("\n");
    out
}

fn requirements_part(report: &SystemRequirementsReport) -> (r: String)
    ensures
        r@ == report_requirements(*report),
{
    let mut out: String = String::new();
    append_requirement(&mut out, &report.war_thunder_api);
    assert(out@ =~= requirement_text(report.war_thunder_api@));
    append_requirement(&mut out, &report.flatpak);
    append_requirement(&mut out, &report.gsr_flatpak);
    append_requirement(&mut out, &report.gsr_native);
    append_requirement(&mut out, &report.ffmpeg);
    append_requirement(&mut out, &report.ffprobe);
    append_requirement(&mut out, &report.output_dir);
    append_requirement(&mut out, &report.config_dir);
    out
}

fn commands_part(commands: &InstallCommands) -> (r: String)
    ensures
        r@ == report_commands(*commands),
{
    let mut out: String = "\nInstall commands:\n".to_owned();
    append_line(&mut out, "GSR Flatpak: ", commands.install_gsr_flatpak.as_str());
    append_line(
        &mut out,
        "Flatpak Debian/Ubuntu/Pop!_OS: ",
        commands.install_flatpak_apt.as_str(),
    );
    append_line(
        &mut out,
        "FFmpeg Debian/Ubuntu/Pop!_OS: ",
        commands.install_ffmpeg_apt.as_str(),
    );
    append_line(&mut out, "FFmpeg Arch: ", commands.install_ffmpeg_pacman.as_str());
    append_line(&mut out, "FFmpeg Fedora: ", commands.install_ffmpeg_dnf.as_str());
    out
}

pub fn format_system_requirements_report(report: &SystemRequirementsReport) -> (r: String)
    ensures
        r@ == requirements_text(*report),
{
    let mut out: String = head_text(report);
    out.append(requirements_part(report).as_str());
    out.append(commands_part(&report.install_commands).as_str());
    out.append("\nRecent logs:\n");
    out.append(lines_joined(&report.logs.recent_logs).as_str());
    out
}

pub open spec fn recent_logs_text(logs: DiagnosticLogsSummary) -> Seq<char> {
    let written = (match logs.logs_path {
        Some(p) => "Logs path: "@ + p@ + "\n\n"@,
        None => seq![],
    }) + lines_text(text::texts(logs.recent_logs@));
    if text::trim_of(written).len() == 0 {
        "No persistent log file configured yet.\n"@
    } else {
        written
    }
}

pub fn format_recent_logs(report: &SystemRequirementsReport) -> (r: String)
    ensures
        r@ == recent_logs_text(report.logs),
{
    let mut out: String = match &report.logs.logs_path {
        Some(p) => {
            let mut head: String = text::join2("Logs path: ", p.as_str());
            head.append("\n\n");
            head
        },
        None => String::new(),
    };
    out.append(lines_joined(&report.logs.recent_logs).as_str());
    if text::trim(out.as_str()).is_empty() {
        "No persistent log file configured yet.\n".to_owned()
    } else {
        out
    }
}

/// A program that the diagnosis runs.
#[derive(Clone, Copy, Debug, PartialEq, Eq, Structural)]
pub enum AskedProgram {
    Flatpak,
    GsrNative,
    GsrFlatpakApp,
    GsrFlatpakHelp,
    GsrMonitors,
    Ffmpeg,
    Ffprobe,
}

pub open spec fn asked_program(asked: AskedProgram) -> Seq<char> {
    match asked {
        AskedProgram::GsrNative => "gpu-screen-recorder"@,
        AskedProgram::Ffmpeg => "ffmpeg"@,
        AskedProgram::Ffprobe => "ffprobe"@,
        _ => "flatpak"@,
    }
}

/// What the program is called with. FFmpeg and FFprobe are asked for their
/// version with the given option.
pub open spec fn asked_args(asked: AskedProgram, version: Seq<char>) -> Seq<Seq<char>> {
    match asked {
        AskedProgram::Flatpak => seq!["--version"@],
        AskedProgram::GsrNative => seq!["--help"@],
        AskedProgram::GsrFlatpakApp => seq!["info"@, gpu_screen_recorder::flatpak_app_id()],
        AskedProgram::GsrFlatpakHelp => gpu_screen_recorder::flatpak_question("--help"@),
        AskedProgram::GsrMonitors => gpu_screen_recorder::flatpak_question("--list-monitors"@),
        AskedProgram::Ffmpeg | AskedProgram::Ffprobe => seq![version],
    }
}

fn asked_with(asked: AskedProgram, version: &str) -> (r: ProgramCall)
    ensures
        r.is(asked_program(asked), asked_args(asked, version@)),
{
    let (program, args) = match asked {
        AskedProgram::Flatpak => ("flatpak", text::owned_texts(&["--version"])),
        AskedProgram::GsrNative => ("gpu-screen-recorder", text::owned_texts(&["--help"])),
        AskedProgram::GsrFlatpakApp => (
            "flatpak",
            text::owned_texts(&["info", "com.dec05eba.gpu_screen_recorder"]),
        ),
        AskedProgram::GsrFlatpakHelp => {
            return gpu_screen_recorder::ask_in_flatpak("--help");
        },
        AskedProgram::GsrMonitors => {
            return gpu_screen_recorder::ask_in_flatpak("--list-monitors");
        },
        AskedProgram::Ffmpeg => ("ffmpeg", text::owned_texts(&[version])),
        AskedProgram::Ffprobe => ("ffprobe", text::owned_texts(&[version])),
    };
    assert(text::texts(args@) =~= asked_args(asked, version@));
    ProgramCall { program: program.to_owned(), args }
}

/// What the report on the terminal runs.
pub fn report_call(asked: AskedProgram) -> (r: ProgramCall)
    ensures
        r.is(asked_program(asked), asked_args(asked, "--version"@)),
{
    asked_with(asked, "--version")
}

/// What the report on the requirements runs.
pub fn requirement_call(asked: AskedProgram) -> (r: ProgramCall)
    ensures
        r.is(asked_program(asked), asked_args(asked, "-version"@)),
{
    asked_with(asked, "-version")
}

/// The summary says the worst that any check says.
pub proof fn lemma_summary_says_the_worst(checks: Seq<CheckView>)
    ensures
        (exists|i: int| 0 <= i < checks.len() && (#[trigger] checks[i]).status
            == DoctorStatus::Error) ==> summary_text(checks) == "Doctor completed with errors."@,
        (forall|i: int| 0 <= i < checks.len() ==> (#[trigger] checks[i]).status
            != DoctorStatus::Error) && (exists|i: int| 0 <= i < checks.len() && (
        #[trigger] checks[i]).status == DoctorStatus::Warn) ==> summary_text(checks)
            == "Doctor completed with warnings."@,
        (forall|i: int| 0 <= i < checks.len() ==> (#[trigger] checks[i]).status
            == DoctorStatus::Passed) ==> summary_text(checks) == "Doctor completed successfully."@,
{
}

/// A program that runs passes its check, and one that does not is never taken as
/// available, but it is no error: clips can be made without it. The program and
/// what went wrong are named.
pub proof fn lemma_programs_are_checked(
    name: Seq<char>,
    program: Seq<char>,
    outcome: RunOutcome,
    listing: Seq<char>,
)
    ensures
        command_check(name, program, outcome).name == name,
        (command_check(name, program, outcome).status == DoctorStatus::Passed) == (
        outcome is Succeeded),
        !(outcome is Succeeded) ==> command_check(name, program, outcome).status
            == DoctorStatus::Warn && command_check(name, program, outcome).hint is Some
            && text::occurs_in(command_check(name, program, outcome).hint->0, program),
        outcome matches RunOutcome::Exited(status) ==> text::has_suffix(
            command_check(name, program, outcome).message,
            status@,
        ),
        outcome matches RunOutcome::NotRun(error) ==> text::has_suffix(
            command_check(name, program, outcome).message,
            error@,
        ),
        (monitors_check(outcome, listing).status == DoctorStatus::Passed) == (
        outcome is Succeeded),
        outcome is Succeeded ==> gsr_native_check(outcome).status == DoctorStatus::Passed
            && gsr_flatpak_app_check(outcome).status == DoctorStatus::Passed
            && gsr_flatpak_help_check(outcome).status == DoctorStatus::Passed,
        !(outcome is Succeeded) ==> gsr_native_check(outcome).status != DoctorStatus::Passed
            && gsr_flatpak_app_check(outcome).status != DoctorStatus::Passed
            && gsr_flatpak_help_check(outcome).status != DoctorStatus::Passed,
{
    let a = "verify `"@;
    let b = "` is installed correctly"@;
    let one = a + program + b;
    assert(one.subrange(a.len() as int, a.len() as int + program.len()) =~= program);
    assert(text::matches_at(one, program, a.len() as int));
    let c = "install `"@;
    let d = "` or ensure it is in PATH"@;
    let two = c + program + d;
    assert(two.subrange(c.len() as int, c.len() as int + program.len()) =~= program);
    assert(text::matches_at(two, program, c.len() as int));
    match outcome {
        RunOutcome::Exited(status) => {
            let m = "command exited with status "@ + status@;
            assert(m.subrange(m.len() - status@.len(), m.len() as int) =~= status@);
        },
        RunOutcome::NotRun(error) => {
            let m = "not found: "@ + error@;
            assert(m.subrange(m.len() - error@.len(), m.len() as int) =~= error@);
        },
        RunOutcome::Succeeded => {},
    }
}

/// Room for clips is enough from five GiB on and from what is required on. Less
/// than what is required, or than one GiB, is an error.
pub proof fn lemma_room_is_enough(available: u64, required: u64)
    ensures
        space_status(available, required) == DoctorStatus::Passed <==> available
            >= 5 * 1024 * 1024 * 1024 && available >= required,
        space_status(available, required) == DoctorStatus::Error <==> available
            < 1024 * 1024 * 1024 || available < required,
{
}

/// The report passes over nothing: where files cannot be written, or room is
/// short, it has an error, and where a program or the game does not answer, it does
/// not succeed.
pub proof fn lemma_report_passes_over_nothing(f: DoctorFacts)
    ensures
        f.output_dir_denied is Some || f.temp_dir_denied is Some ==> summary_text(report_checks(f))
            == "Doctor completed with errors."@,
        f.output_dir_space matches Ok(room) ==> (room < 5 * 1024 * 1024 * 1024 ==> summary_text(
            report_checks(f),
        ) == "Doctor completed with errors."@),
        f.temp_dir_space matches Ok(room) ==> (room < 5 * 1024 * 1024 * 1024 ==> summary_text(
            report_checks(f),
        ) == "Doctor completed with errors."@),
        !(f.flatpak is Succeeded) || !(f.ffmpeg is Succeeded) || !(f.ffprobe is Succeeded) || !(
        f.gsr_monitors is Succeeded) || !(f.localhost is Success) ==> summary_text(report_checks(f))
            != "Doctor completed successfully."@,
{
    let checks = report_checks(f);
    assert(checks.len() == 14);
    assert(checks[0] == command_check("Flatpak"@, "flatpak"@, f.flatpak));
    assert(checks[4] == monitors_check(f.gsr_monitors, text::text_in(f.gsr_monitors_stdout@)));
    assert(checks[5] == command_check("ffmpeg"@, "ffmpeg"@, f.ffmpeg));
    assert(checks[6] == command_check("ffprobe"@, "ffprobe"@, f.ffprobe));
    assert(checks[8] == localhost_check(f.localhost));
    assert(checks[9] == writable_check(
        "Output dir writable"@,
        Ok(f.output_dir),
        f.output_dir_denied,
    ));
    assert(checks[10] == space_check(
        "Output dir free space"@,
        Ok(f.output_dir),
        FIVE_GIB,
        f.output_dir_space,
    ));
    assert(checks[11] == writable_check("Temp dir writable"@, Ok(f.temp_dir), f.temp_dir_denied));
    assert(checks[12] == space_check(
        "Temp dir free space"@,
        Ok(f.temp_dir),
        FIVE_GIB,
        f.temp_dir_space,
    ));
    lemma_summary_says_the_worst(checks);
    if summary_text(checks) == "Doctor completed successfully."@ {
        lemma_success_means_all_passed(checks);
        assert(checks[0].status is Passed);
        assert(checks[4].status is Passed);
        assert(checks[5].status is Passed);
        assert(checks[6].status is Passed);
        assert(checks[8].status is Passed);
    }
}

/// A requirement is met where its program answered, missing where it was not found,
/// and else an error. What is missing comes with the command that installs it.
pub proof fn lemma_requirement_follows_its_probe(
    id: Seq<char>,
    label: Seq<char>,
    probe: ProbeView,
    ok_summary: Seq<char>,
    missing_summary: Seq<char>,
    install_command: Option<Seq<char>>,
)
    ensures
        ({
            let r = probed(id, label, probe, ok_summary, missing_summary, install_command);
            &&& r.id == id
            &&& r.label == label
            &&& r.details == probe.details
            &&& (r.status == RequirementStatus::Passed) == (probe.status
                == RequirementStatus::Passed)
            &&& (r.status == RequirementStatus::Missing) == (probe.status
                == RequirementStatus::Missing)
            &&& probe.status == RequirementStatus::Passed ==> r.version == probe.version && r.path
                == probe.path && r.summary == ok_summary && r.command is None
            &&& probe.status == RequirementStatus::Missing ==> r.summary == missing_summary
                && r.command == install_command
            &&& probe.status == RequirementStatus::Error ==> r.status == RequirementStatus::Error
                && r.summary == probe.summary && r.command == install_command
        }),
{
}

/// The recorder in its sandbox is there where it is installed and its command
/// answers, missing where it is not installed, and without Flatpak nothing is known
/// of it.
pub proof fn lemma_sandboxed_recorder_is_checked(
    flatpak_missing: bool,
    info: ProbeView,
    help: ProbeView,
)
    ensures
        ({
            let r = gsr_flatpak_requirement(flatpak_missing, info, help);
            let installed = info.status == RequirementStatus::Passed;
            &&& r.status == RequirementStatus::Passed ==> !flatpak_missing && installed
            &&& !flatpak_missing && installed && help.status == RequirementStatus::Passed
                ==> r.status == RequirementStatus::Passed
            &&& (r.status == RequirementStatus::Missing) == (!flatpak_missing && !installed)
            &&& flatpak_missing ==> r.status == RequirementStatus::Warning
            &&& r.id == "gsr_flatpak"@
            &&& r.status != RequirementStatus::Passed ==> r.command == Some(
                "flatpak install flathub com.dec05eba.gpu_screen_recorder"@,
            )
        }),
{
}

/// The recorder that is configured is warned of where only the other one is there.
/// Where neither is there both are errors, unless either will do. Else nothing
/// changes, and never more than the status and its words.
pub proof fn lemma_configured_recorder_is_warned_of(
    mode: GpuScreenRecorderMode,
    flatpak: RequirementView,
    native: RequirementView,
)
    ensures
        ({
            let r = mode_warned(mode, flatpak, native);
            let sandboxed = flatpak.status == RequirementStatus::Passed;
            let plain = native.status == RequirementStatus::Passed;
            &&& mode == GpuScreenRecorderMode::Flatpak && !sandboxed && plain ==> r.0.status
                == RequirementStatus::Warning && r.1 == native
            &&& mode == GpuScreenRecorderMode::Native && sandboxed && !plain ==> r.1.status
                == RequirementStatus::Warning && r.0 == flatpak
            &&& mode != GpuScreenRecorderMode::Auto && flatpak.status
                == RequirementStatus::Missing && native.status == RequirementStatus::Missing
                ==> r.0.status == RequirementStatus::Error && r.1.status
                == RequirementStatus::Error
            &&& mode == GpuScreenRecorderMode::Auto || (sandboxed && plain) ==> r == (
                flatpak,
                native,
            )
            &&& mode == GpuScreenRecorderMode::Flatpak && sandboxed ==> r == (flatpak, native)
            &&& mode == GpuScreenRecorderMode::Native && plain ==> r == (flatpak, native)
            &&& r.0.id == flatpak.id && r.1.id == native.id
            &&& r.0.command == flatpak.command && r.1.command == native.command
        }),
{
}

/// The game's interface is there where the program is connected to it or where it
/// answers with success.
pub proof fn lemma_reachable_game_passes(
    base_url: Seq<char>,
    connected: bool,
    outcome: HttpOutcome,
)
    ensures
        (api_requirement(base_url, connected, outcome).status == RequirementStatus::Passed) == (
        connected || outcome is Success),
        (localhost_check(outcome).status == DoctorStatus::Passed) == (outcome is Success),
        localhost_check(outcome).status != DoctorStatus::Error,
{
}

/// A directory is fine where a file could be written in it, a warning where it can
/// be made, and else an error.
pub proof fn lemma_directory_follows_its_facts(
    id: Seq<char>,
    label: Seq<char>,
    dir: Seq<char>,
    facts: DirectoryFacts,
    found: DirectoryWritableStatus,
)
    requires
        directory_status_is(found, dir, facts),
    ensures
        ({
            let r = directory_requirement(id, label, Ok(found));
            let parent = path::parent_of(dir) is Some && facts.parent_is_there;
            &&& (r.status == RequirementStatus::Passed) == (facts.is_there
                && facts.write_error is None)
            &&& (r.status == RequirementStatus::Warning) == (!facts.is_there && parent
                && facts.write_error is None)
            &&& (r.status == RequirementStatus::Error) == (facts.write_error is Some || (
            !facts.is_there && !parent))
            &&& r.id == id
            &&& r.status == RequirementStatus::Passed ==> r.path == Some(dir)
        }),
{
}

/// What is told of a program's output is its first line that is not blank, trimmed.
pub proof fn lemma_first_useful_line(lines: Seq<Seq<char>>, i: int)
    requires
        0 <= i < lines.len(),
        text::trim_of(lines[i]).len() > 0,
        forall|j: int| 0 <= j < i ==> text::trim_of(#[trigger] lines[j]).len() == 0,
    ensures
        first_useful(lines) is Some,
        text::trim_of(lines[i]).len() <= 240 ==> first_useful(lines) == Some(
            text::trim_of(lines[i]),
        ),
        text::has_prefix(text::trim_of(lines[i]), first_useful(lines)->0),
    decreases lines.len(),
{
    if i > 0 {
        let t = lines.drop_first();
        assert(text::trim_of(lines[0]).len() == 0);
        assert forall|j: int| 0 <= j < i - 1 implies text::trim_of(#[trigger] t[j]).len() == 0 by {
            assert(t[j] == lines[j + 1]);
        }
        assert(t[i - 1] == lines[i]);
        lemma_first_useful_line(t, i - 1);
    } else {
        let line = text::trim_of(lines[0]);
        assert(line.subrange(0, line.len() as int) =~= line);
    }
}

}
