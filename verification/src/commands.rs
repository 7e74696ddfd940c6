//! What the application's commands hand to the user interface.

use crate::download::DownloadState;
use crate::flash::FlashState;
use crate::logging::comes_before;
use crate::logging::is_before;
use crate::logging::is_log_file_name;
use crate::logging::is_log_name;
use crate::logging::LogFile;
use crate::progress::percent_of;
use crate::progress::progress_percent;
use crate::text::after_last;
use crate::text::chars_of;
use crate::text::decimal;
use crate::text::lemma_tail_start;
use crate::text::lines_of;
use crate::text::same_text;
use crate::text::split_lines;
use crate::text::to_decimal;
use crate::text::trim;
use crate::text::trimmed;
use crate::transport::is_success;
use crate::utils::Platform;
use vstd::prelude::*;

verus! {

/// A local image file that the user picked.
#[derive(Debug)]
pub struct CustomImageInfo {
    pub path: String,
    pub name: String,
    pub size: u64,
}

/// What is shown of a local image file that the user picked: its path, its
/// file name, or `unknown` if it has none that can be shown, and its size.
pub fn custom_image_info(path: &str, file_name: Option<&str>, size: u64) -> (info: CustomImageInfo)
    ensures
        info.path@ == path@,
        info.name@ == match file_name {
            Some(name) => name@,
            None => "unknown"@,
        },
        info.size == size,
{
    let name = match file_name {
        Some(name) => name.to_owned(),
        None => "unknown".to_owned(),
    };
    CustomImageInfo { path: path.to_owned(), name, size }
}

/// Where uploaded logs can be read.
#[derive(Debug)]
pub struct UploadResult {
    /// Address of the paste.
    pub url: String,
    /// Short key of the paste: the last segment of its address.
    pub key: String,
}

/// The result of an upload from the paste service's answer, which is the
/// address of the paste, possibly with white space around it.
pub fn upload_result(answer: &str) -> (result: UploadResult)
    ensures
        result.url@ == trimmed(answer@),
        result.key@ == after_last(trimmed(answer@), '/'),
{
    let url = trim(answer);
    let chars = chars_of(url);
    let mut start: usize = chars.len();
    while start > 0 && chars[start - 1] != '/'
        invariant
            0 <= start <= chars.len(),
            forall|j: int| start <= j < chars.len() ==> chars[j] != '/',
        decreases start,
    {
        start -= 1;
    }
    proof {
        lemma_tail_start(chars@, '/', start as int);
        assert(chars@.subrange(start as int, chars.len() as int) =~= chars@.skip(start as int));
    }
    let key = url.substring_char(start, chars.len());
    UploadResult { url: url.to_owned(), key: key.to_owned() }
}

/// A snapshot of a download for the user interface.
#[derive(Debug)]
pub struct DownloadProgress {
    pub total_bytes: u64,
    pub downloaded_bytes: u64,
    pub is_verifying_sha: bool,
    pub is_decompressing: bool,
    /// Whole percent of the declared size that have arrived.
    pub progress_percent: u64,
    pub error: Option<String>,
}

/// A snapshot of a flash operation for the user interface.
#[derive(Debug)]
pub struct FlashProgress {
    pub total_bytes: u64,
    pub written_bytes: u64,
    pub verified_bytes: u64,
    pub is_verifying: bool,
    /// Whole percent of the image that are written, or, once verification
    /// has begun, that are verified.
    pub progress_percent: u64,
    pub error: Option<String>,
}

/// The progress of a download as the user interface shows it.
pub fn get_download_progress(state: &DownloadState) -> (progress: DownloadProgress)
    ensures
        progress.total_bytes == state.total_bytes,
        progress.downloaded_bytes == state.downloaded_bytes,
        progress.is_verifying_sha == state.is_verifying_sha,
        progress.is_decompressing == state.is_decompressing,
        progress.progress_percent == percent_of(state.downloaded_bytes, state.total_bytes),
        progress.error == state.error,
{
    DownloadProgress {
        total_bytes: state.total_bytes,
        downloaded_bytes: state.downloaded_bytes,
        is_verifying_sha: state.is_verifying_sha,
        is_decompressing: state.is_decompressing,
        progress_percent: progress_percent(state.downloaded_bytes, state.total_bytes),
        error: state.error.clone(),
    }
}

/// The progress of a flash operation as the user interface shows it.
pub fn get_flash_progress(state: &FlashState) -> (progress: FlashProgress)
    ensures
        progress.total_bytes == state.total_bytes,
        progress.written_bytes == state.written_bytes,
        progress.verified_bytes == state.verified_bytes,
        progress.is_verifying == state.is_verifying,
        progress.progress_percent == if state.is_verifying {
            percent_of(state.verified_bytes, state.total_bytes)
        } else {
            percent_of(state.written_bytes, state.total_bytes)
        },
        progress.error == state.error,
{
    let done: u64 = if state.is_verifying {
        state.verified_bytes
    } else {
        state.written_bytes
    };
    FlashProgress {
        total_bytes: state.total_bytes,
        written_bytes: state.written_bytes,
        verified_bytes: state.verified_bytes,
        is_verifying: state.is_verifying,
        progress_percent: progress_percent(done, state.total_bytes),
        error: state.error.clone(),
    }
}

/// Why logs were not uploaded.
#[derive(Debug, Clone, Copy, PartialEq, Eq, Structural)]
pub enum UploadError {
    /// There is nothing to upload.
    NoContent,
    /// The paste service answered with this status.
    HttpStatus { status: u16 },
}

/// May the collected logs be uploaded?  Not if they are nothing but white
/// space.
pub fn check_upload_content(content: &str) -> (result: Result<(), UploadError>)
    ensures
        result == if trimmed(content@).len() == 0 {
            Err::<(), UploadError>(UploadError::NoContent)
        } else {
            Ok(())
        },
{
    let rest = trim(content);
    if rest.unicode_len() == 0 {
        Err(UploadError::NoContent)
    } else {
        Ok(())
    }
}

/// What the paste service's answer to an upload comes to: the address and
/// the key of the paste if the status is one of success.
pub fn upload_outcome(status: u16, answer: &str) -> (result: Result<UploadResult, UploadError>)
    ensures
        match result {
            Ok(uploaded) => {
                &&& is_success(status)
                &&& uploaded.url@ == trimmed(answer@)
                &&& uploaded.key@ == after_last(trimmed(answer@), '/')
            },
            Err(error) => !is_success(status) && error == (UploadError::HttpStatus { status }),
        },
{
    if !(200 <= status && status <= 299) {
        return Err(UploadError::HttpStatus { status });
    }
    Ok(upload_result(answer))
}

/// How many lines of an earlier log are uploaded at most.
pub const PREVIOUS_LOG_LINES: usize = 500;

/// How many earlier logs are uploaded at most.
pub const PREVIOUS_LOGS: usize = 2;

/// Is file `i` an earlier log: a log file other than the current one?
pub open spec fn is_earlier_log(files: Seq<LogFile>, current: Option<Seq<char>>, i: int) -> bool {
    is_log_name(files[i].name@) && current != Some(files[i].name@)
}

/// The characters of a name that may be missing.
pub open spec fn name_of(name: Option<&str>) -> Option<Seq<char>> {
    match name {
        Some(text) => Some(text@),
        None => None,
    }
}

/// Is file `i` the newest of the earlier logs other than file `except`?
/// Of files of the same time the one listed first counts as newer, and a
/// file whose time cannot be told as older than any other.
pub open spec fn is_newest_earlier_log(
    files: Seq<LogFile>,
    current: Option<Seq<char>>,
    except: Option<int>,
    i: int,
) -> bool {
    &&& 0 <= i < files.len()
    &&& is_earlier_log(files, current, i)
    &&& except != Some(i)
    &&& forall|j: int|
        0 <= j < files.len() && #[trigger] is_earlier_log(files, current, j) && except != Some(j)
            && j != i ==> comes_before(files, i, j)
}

/// The position as an integer, if there is one.
pub open spec fn position(at: Option<usize>) -> Option<int> {
    match at {
        Some(i) => Some(i as int),
        None => None,
    }
}

/// The newest of the earlier logs other than `except`, if there is one.
/// `earlier` tells of each file whether it is an earlier log.
fn newest_earlier_log(
    files: &Vec<LogFile>,
    earlier: &Vec<bool>,
    except: Option<usize>,
    Ghost(current): Ghost<Option<Seq<char>>>,
) -> (found: Option<usize>)
    requires
        earlier.len() == files.len(),
        forall|k: int| 0 <= k < files.len() ==> earlier[k] == is_earlier_log(files@, current, k),
    ensures
        match found {
            Some(i) => is_newest_earlier_log(files@, current, position(except), i as int),
            None => forall|j: int|
                0 <= j < files.len() && #[trigger] is_earlier_log(files@, current, j)
                    ==> position(except) == Some(j),
        },
{
    let mut best: Option<usize> = None;
    let mut i: usize = 0;
    while i < files.len()
        invariant
            0 <= i <= files.len(),
            earlier.len() == files.len(),
            forall|k: int|
                0 <= k < files.len() ==> earlier[k] == is_earlier_log(files@, current, k),
            match best {
                Some(b) => {
                    &&& b < i
                    &&& is_earlier_log(files@, current, b as int)
                    &&& position(except) != Some(b as int)
                    &&& forall|j: int|
                        0 <= j < i && #[trigger] is_earlier_log(files@, current, j) && position(
                            except,
                        ) != Some(j) && j != b ==> comes_before(files@, b as int, j)
                },
                None => forall|j: int|
                    0 <= j < i && #[trigger] is_earlier_log(files@, current, j) ==> position(
                        except,
                    ) == Some(j),
            },
        decreases files.len() - i,
    {
        let excluded = match except {
            Some(e) => e == i,
            None => false,
        };
        if earlier[i] && !excluded {
            match best {
                Some(b) => {
                    if is_before(files, i, b) {
                        best = Some(i);
                    }
                },
                None => {
                    best = Some(i);
                },
            }
        }
        i += 1;
    }
    best
}

/// The earlier logs to upload with the current one: the two newest log
/// files other than the current one, the newer first.
pub fn previous_logs(files: &Vec<LogFile>, current: Option<&str>) -> (chosen: Vec<usize>)
    ensures
        chosen@.len() <= 2,
        chosen@.len() >= 1 ==> is_newest_earlier_log(
            files@,
            name_of(current),
            None,
            chosen@[0] as int,
        ),
        chosen@.len() == 2 ==> is_newest_earlier_log(
            files@,
            name_of(current),
            Some(chosen@[0] as int),
            chosen@[1] as int,
        ),
        forall|j: int|
            0 <= j < files.len() && #[trigger] is_earlier_log(files@, name_of(current), j)
                ==> chosen@.len() >= 1 && (chosen@[0] == j || chosen@.len() == 2),
{
    let ghost current_name: Option<Seq<char>> = name_of(current);
    let mut earlier: Vec<bool> = Vec::new();
    let mut i: usize = 0;
    while i < files.len()
        invariant
            0 <= i <= files.len(),
            earlier.len() == i,
            current_name == name_of(current),
            forall|k: int| 0 <= k < i ==> earlier[k] == is_earlier_log(files@, current_name, k),
        decreases files.len() - i,
    {
        let is_current = match current {
            Some(name) => same_text(files[i].name.as_str(), name),
            None => false,
        };
        earlier.push(is_log_file_name(files[i].name.as_str()) && !is_current);
        i += 1;
    }
    let mut chosen: Vec<usize> = Vec::new();
    match newest_earlier_log(files, &earlier, None, Ghost(current_name)) {
        Some(first) => {
            chosen.push(first);
            match newest_earlier_log(files, &earlier, Some(first), Ghost(current_name)) {
                Some(second) => {
                    chosen.push(second);
                },
                None => {},
            }
        },
        None => {},
    }
    chosen
}

/// What is known of the system and the moment of an upload.
#[derive(Debug)]
pub struct UploadHeader {
    /// Date and time, as in `2024-05-17 14:03:59`.
    pub timestamp: String,
    /// Version of the application.
    pub app_version: String,
    /// Operating system.
    pub os: String,
    /// Processor architecture.
    pub arch: String,
}

/// A log as it was read, or why it could not be read.
#[derive(Debug)]
pub struct ReadLog {
    /// Name of the log file.
    pub name: String,
    /// What the file holds, or the error of reading it.
    pub content: Result<String, String>,
}

/// The heading of an upload.
pub open spec fn header_text(header: UploadHeader) -> Seq<char> {
    "=== Armbian Imager Log Upload ===\n"@ + "Timestamp: "@ + header.timestamp@ + "\n"@
        + "App Version: "@ + header.app_version@ + "\n"@ + "OS: "@ + header.os@ + " "@
        + header.arch@ + "\n"@ + "\n"@
}

/// What stands for a log that could not be read.
pub open spec fn read_error_text(error: Seq<char>) -> Seq<char> {
    "Error reading log file: "@ + error + "\n"@
}

/// The part of an upload that holds the current log.
pub open spec fn current_log_text(current: Option<Result<String, String>>) -> Seq<char> {
    match current {
        Some(Ok(content)) => "=== Current Session Log ===\n"@ + content@,
        Some(Err(error)) => "=== Current Session Log ===\n"@ + read_error_text(error@),
        None => "No current log file available.\n"@,
    }
}

/// The lines `lines[from..]`, each closed by a line feed.
pub open spec fn closed_lines(lines: Seq<Seq<char>>, from: int) -> Seq<char>
    decreases lines.len() - from,
{
    if from < 0 || from >= lines.len() {
        Seq::empty()
    } else {
        lines[from] + seq!['\n'] + closed_lines(lines, from + 1)
    }
}

/// What an upload holds of an earlier log: all of it, or, of a log of more
/// than 500 lines, a note and its last 500 lines.
pub open spec fn earlier_content_text(content: Seq<char>) -> Seq<char> {
    let lines = lines_of(content);
    if lines.len() > 500 {
        "... (truncated, showing last 500 of "@ + decimal(lines.len()) + " lines)\n"@
            + closed_lines(lines, lines.len() - 500)
    } else {
        content
    }
}

/// The part of an upload that holds one earlier log.
pub open spec fn earlier_log_text(log: ReadLog) -> Seq<char> {
    "\n=== Previous Log: "@ + log.name@ + " ===\n"@ + match log.content {
        Ok(content) => earlier_content_text(content@),
        Err(error) => read_error_text(error@),
    }
}

/// The parts of an upload that hold the earlier logs `earlier[from..]`.
pub open spec fn earlier_logs_text(earlier: Seq<ReadLog>, from: int) -> Seq<char>
    decreases earlier.len() - from,
{
    if from < 0 || from >= earlier.len() {
        Seq::empty()
    } else {
        earlier_log_text(earlier[from]) + earlier_logs_text(earlier, from + 1)
    }
}

fn append_read_error(text: &mut String, error: &str)
    ensures
        final(text)@ == old(text)@ + read_error_text(error@),
{
    text.append("Error reading log file: ");
    text.append(error);
    text.append("\n");
}

fn append_earlier_content(text: &mut String, content: &str)
    ensures
        final(text)@ == old(text)@ + earlier_content_text(content@),
{
    let lines = split_lines(content);
    if lines.len() > PREVIOUS_LOG_LINES {
        let ghost all = lines_of(content@);
        text.append("... (truncated, showing last 500 of ");
        let count = to_decimal(lines.len() as u64);
        text.append(count.as_str());
        text.append(" lines)\n");
        let ghost head = text@;
        let start: usize = lines.len() - PREVIOUS_LOG_LINES;
        let mut tail = String::new();
        let mut i: usize = lines.len();
        proof {
            assert(tail@ =~= closed_lines(all, i as int));
        }
        while i > start
            invariant
                start <= i <= lines.len(),
                lines@.len() == all.len(),
                forall|k: int| 0 <= k < lines@.len() ==> (#[trigger] lines@[k])@ == all[k],
                tail@ == closed_lines(all, i as int),
            decreases i,
        {
            i -= 1;
            let mut line = lines[i].clone();
            line.push('\n');
            line.append(tail.as_str());
            proof {
                assert(line@ =~= all[i as int] + seq!['\n'] + closed_lines(all, i + 1));
            }
            tail = line;
        }
        text.append(tail.as_str());
    } else {
        text.append(content);
    }
}

/// Puts together what is uploaded: a heading, the current log, and the
/// earlier logs that were chosen, each under a heading of its own.
pub fn collect_logs(
    header: &UploadHeader,
    current: &Option<Result<String, String>>,
    earlier: &Vec<ReadLog>,
) -> (content: String)
    ensures
        content@ == header_text(*header) + current_log_text(*current) + earlier_logs_text(
            earlier@,
            0,
        ),
{
    let mut content = "=== Armbian Imager Log Upload ===\n".to_owned();
    content.append("Timestamp: ");
    content.append(header.timestamp.as_str());
    content.append("\n");
    content.append("App Version: ");
    content.append(header.app_version.as_str());
    content.append("\n");
    content.append("OS: ");
    content.append(header.os.as_str());
    content.append(" ");
    content.append(header.arch.as_str());
    content.append("\n");
    content.append("\n");
    match current {
        Some(Ok(log)) => {
            content.append("=== Current Session Log ===\n");
            content.append(log.as_str());
        },
        Some(Err(error)) => {
            content.append("=== Current Session Log ===\n");
            append_read_error(&mut content, error.as_str());
        },
        None => {
            content.append("No current log file available.\n");
        },
    }
    let ghost head = content@;
    let mut tail = String::new();
    let mut i: usize = earlier.len();
    while i > 0
        invariant
            0 <= i <= earlier.len(),
            tail@ == earlier_logs_text(earlier@, i as int),
        decreases i,
    {
        i -= 1;
        let mut part = "\n=== Previous Log: ".to_owned();
        part.append(earlier[i].name.as_str());
        part.append(" ===\n");
        match &earlier[i].content {
            Ok(log) => {
                append_earlier_content(&mut part, log.as_str());
            },
            Err(error) => {
                append_read_error(&mut part, error.as_str());
            },
        }
        part.append(tail.as_str());
        tail = part;
    }
    content.append(tail.as_str());
    content
}

/// A command and its arguments.
#[derive(Debug)]
pub struct CommandLine {
    pub program: String,
    pub args: Vec<String>,
}

/// A variable of the environment and its value.
#[derive(Debug)]
pub struct EnvValue {
    pub name: String,
    pub value: String,
}

/// `name=value` for each of the given variables, in order.
pub open spec fn assignments(env: Seq<EnvValue>) -> Seq<Seq<char>> {
    Seq::new(env.len(), |i: int| env[i].name@ + "="@ + env[i].value@)
}

/// The views of the arguments of a command.
pub open spec fn arg_texts(args: Seq<String>) -> Seq<Seq<char>> {
    Seq::new(args.len(), |i: int| args[i]@)
}

/// The arguments with which `runuser` opens `url` as `username`, with the
/// given variables set for the opener.
pub open spec fn runuser_args(username: Seq<char>, env: Seq<EnvValue>, url: Seq<char>) -> Seq<
    Seq<char>,
> {
    seq!["-u"@, username, "--"@, "env"@] + assignments(env) + seq!["xdg-open"@, url]
}

/// The commands by which `url` is opened in the user's browser, in the
/// order in which they are tried until one can be started.
///
/// On Linux a program that runs as the superuser on behalf of `username`
/// opens the URL as that user, first with `runuser`, which is handed the
/// variables in `env` that the opener needs to reach the user's session,
/// then with `pkexec`; the opener by itself is the last resort and, where
/// no such user is known, the only one.
pub fn open_url_commands(platform: Platform, url: &str, username: Option<&str>, env: &Vec<EnvValue>) -> (
    commands: Vec<CommandLine>)
    ensures
        match platform {
            Platform::MacOs => {
                &&& commands@.len() == 1
                &&& commands@[0].program@ == "open"@
                &&& arg_texts(commands@[0].args@) == seq![url@]
            },
            Platform::Windows => {
                &&& commands@.len() == 1
                &&& commands@[0].program@ == "cmd"@
                &&& arg_texts(commands@[0].args@) == seq!["/c"@, "start"@, ""@, url@]
            },
            _ => match username {
                Some(user) => {
                    &&& commands@.len() == 3
                    &&& commands@[0].program@ == "runuser"@
                    &&& arg_texts(commands@[0].args@) == runuser_args(user@, env@, url@)
                    &&& commands@[1].program@ == "pkexec"@
                    &&& arg_texts(commands@[1].args@) == seq![
                        "--user"@,
                        user@,
                        "xdg-open"@,
                        url@,
                    ]
                    &&& commands@[2].program@ == "xdg-open"@
                    &&& arg_texts(commands@[2].args@) == seq![url@]
                },
                None => {
                    &&& commands@.len() == 1
                    &&& commands@[0].program@ == "xdg-open"@
                    &&& arg_texts(commands@[0].args@) == seq![url@]
                },
            },
        },
{
    let mut commands: Vec<CommandLine> = Vec::new();
    match platform {
        Platform::MacOs => {
            let mut args: Vec<String> = Vec::new();
            args.push(url.to_owned());
            proof {
                assert(arg_texts(args@) =~= seq![url@]);
            }
            commands.push(CommandLine { program: "open".to_owned(), args });
        },
        Platform::Windows => {
            let mut args: Vec<String> = Vec::new();
            args.push("/c".to_owned());
            args.push("start".to_owned());
            args.push("".to_owned());
            args.push(url.to_owned());
            proof {
                assert(arg_texts(args@) =~= seq!["/c"@, "start"@, ""@, url@]);
            }
            commands.push(CommandLine { program: "cmd".to_owned(), args });
        },
        _ => {
            match username {
                Some(user) => {
                    let mut args: Vec<String> = Vec::new();
                    args.push("-u".to_owned());
                    args.push(user.to_owned());
                    args.push("--".to_owned());
                    args.push("env".to_owned());
                    let mut i: usize = 0;
                    while i < env.len()
                        invariant
                            0 <= i <= env.len(),
                            arg_texts(args@) == seq!["-u"@, user@, "--"@, "env"@] + assignments(
                                env@,
                            ).take(i as int),
                        decreases env.len() - i,
                    {
                        let mut assignment = env[i].name.clone();
                        assignment.append("=");
                        assignment.append(env[i].value.as_str());
                        let ghost before = arg_texts(args@);
                        args.push(assignment);
                        proof {
                            assert(arg_texts(args@) =~= before.push(assignments(env@)[i as int]));
                            assert(arg_texts(args@) =~= seq!["-u"@, user@, "--"@, "env"@]
                                + assignments(env@).take(i + 1));
                        }
                        i += 1;
                    }
                    let ghost before = arg_texts(args@);
                    args.push("xdg-open".to_owned());
                    args.push(url.to_owned());
                    proof {
                        assert(assignments(env@).take(env.len() as int) =~= assignments(env@));
                        assert(arg_texts(args@) =~= before + seq!["xdg-open"@, url@]);
                        assert(arg_texts(args@) =~= runuser_args(user@, env@, url@));
                    }
                    commands.push(CommandLine { program: "runuser".to_owned(), args });
                    let mut args: Vec<String> = Vec::new();
                    args.push("--user".to_owned());
                    args.push(user.to_owned());
                    args.push("xdg-open".to_owned());
                    args.push(url.to_owned());
                    proof {
                        assert(arg_texts(args@) =~= seq!["--user"@, user@, "xdg-open"@, url@]);
                    }
                    commands.push(CommandLine { program: "pkexec".to_owned(), args });
                },
                None => {},
            }
            let mut args: Vec<String> = Vec::new();
            args.push(url.to_owned());
            proof {
                assert(arg_texts(args@) =~= seq![url@]);
            }
            commands.push(CommandLine { program: "xdg-open".to_owned(), args });
        },
    }
    commands
}

} // verus!
