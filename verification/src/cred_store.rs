//! Where the OAuth credentials are kept: a file, or the macOS login keychain.
use crate::limits::{reading_view, LimitsError, LimitsErrorView};
use crate::snapshot::opt_text;
use crate::text::{chars_of, find, first_occurrence, is_white, last_position,
    law_white_space_around_does_not_matter, lemma_occurs_first, lemma_stands_last, occurs_at, occurs_in,
    rfind, texts, trim_bounds, trimmed, utf8_text};
use vstd::prelude::*;
use vstd::slice::slice_subrange;
use vstd::utf8::{decode_utf8, valid_utf8};

verus! {

/// A file path of the machine; nothing here looks inside.
#[verifier::external_type_specification]
#[verifier::external_body]
pub struct ExPathBuf(std::path::PathBuf);

/// Where the OAuth credentials are kept on this platform: in a plain file, or, on macOS, as a
/// generic password of the login keychain under a service name.
pub enum CredStore {
    File(std::path::PathBuf),
    Keychain { service: String },
}

/// What a command that was run to its end gave.
pub struct CommandOutput {
    pub success: bool,
    pub stdout: Vec<u8>,
}

/// What reading a store gave; `None` where the file could not be read or the command not be run.
pub enum RawRead {
    File(Option<String>),
    Command(Option<CommandOutput>),
}

/// The text that `String::from_utf8_lossy` makes of bytes.
pub uninterp spec fn lossy_text(bytes: Seq<u8>) -> Seq<char>;

/// `String::from_utf8_lossy`: the text that the bytes encode; what is no UTF-8 is replaced.
#[verifier::external_body]
fn utf8_text_lossy(bytes: &Vec<u8>) -> (r: String)
    ensures
        r@ == lossy_text(bytes@),
        valid_utf8(bytes@) ==> r@ == decode_utf8(bytes@),
{
    String::from_utf8_lossy(bytes).into_owned()
}

/// What a reading amounts to: the text, and no credentials where anything went wrong.
pub open spec fn raw_text(outcome: RawRead) -> Result<Seq<char>, LimitsErrorView> {
    match outcome {
        RawRead::File(Some(text)) => Ok(text@),
        RawRead::Command(Some(output)) => if output.success && valid_utf8(output.stdout@) {
            Ok(decode_utf8(output.stdout@))
        } else {
            Err(LimitsErrorView::NoCredentials)
        },
        _ => Err(LimitsErrorView::NoCredentials),
    }
}

impl CredStore {
    /// The arguments of the `security` command that reads the store; a file needs none.
    pub fn read_command(&self) -> (r: Option<Vec<String>>)
        ensures
            match self {
                CredStore::File(_) => r is None,
                CredStore::Keychain { service } => r is Some && texts(r->0@) == seq![
                    "find-generic-password"@,
                    "-s"@,
                    service@,
                    "-w"@,
                ],
            },
    {
        match self {
            CredStore::File(_) => None,
            CredStore::Keychain { service } => {
                let mut args: Vec<String> = Vec::new();
                args.push("find-generic-password".to_owned());
                args.push("-s".to_owned());
                args.push(service.clone());
                args.push("-w".to_owned());
                assert(texts(args@) =~= seq![
                    "find-generic-password"@,
                    "-s"@,
                    service@,
                    "-w"@,
                ]);
                Some(args)
            },
        }
    }

    /// The raw credentials that a reading of the store gave.
    pub fn read_raw(outcome: RawRead) -> (r: Result<String, LimitsError>)
        ensures
            reading_view(r) == raw_text(outcome),
    {
        match outcome {
            RawRead::File(Some(text)) => Ok(text),
            RawRead::Command(Some(output)) => {
                if output.success {
                    match utf8_text(output.stdout) {
                        Some(text) => Ok(text),
                        None => Err(LimitsError::NoCredentials),
                    }
                } else {
                    Err(LimitsError::NoCredentials)
                }
            },
            _ => Err(LimitsError::NoCredentials),
        }
    }
}

/// The length of the first line of a text, without its line feed.
pub open spec fn first_line_len(text: Seq<char>) -> nat
    decreases text.len(),
{
    if text.len() == 0 || text.first() == '\n' {
        0
    } else {
        1 + first_line_len(text.drop_first())
    }
}

/// The account that a line of the form `"acct"<blob>="the-account"` names: what stands between the
/// first `="` behind the attribute's name and the last quotation mark of the line.
pub open spec fn account_in_line(line: Seq<char>) -> Option<Seq<char>> {
    let t = trimmed(line);
    if !occurs_at(t, "\"acct\""@, 0) {
        None
    } else {
        let rest = t.skip(6);
        if !occurs_in(rest, "=\""@) {
            None
        } else {
            let eq = choose|i: int| first_occurrence(rest, "=\""@, i);
            let value = rest.skip(eq + 2);
            if !value.contains('"') {
                None
            } else {
                let end = choose|i: int| last_position(value, '"', i);
                Some(value.take(end))
            }
        }
    }
}

/// The account that the first line naming one names.
pub open spec fn account_in(text: Seq<char>) -> Option<Seq<char>>
    decreases text.len(),
{
    let n = first_line_len(text);
    if n >= text.len() {
        account_in_line(text)
    } else {
        match account_in_line(text.take(n as int)) {
            Some(a) => Some(a),
            None => account_in(text.skip(n as int + 1)),
        }
    }
}

/// The bounds of the account that a line names.
fn line_account(line: &[char]) -> (r: Option<(usize, usize)>)
    ensures
        match r {
            Some((from, to)) => from <= to <= line@.len() && account_in_line(line@) == Some(
                line@.subrange(from as int, to as int),
            ),
            None => account_in_line(line@) is None,
        },
{
    proof {
        reveal_strlit("\"acct\"");
        reveal_strlit("=\"");
    }
    let (start, stop) = trim_bounds(line);
    let t = slice_subrange(line, start, stop);
    let name = chars_of("\"acct\"");
    let mark = chars_of("=\"");
    match find(t, name.as_slice()) {
        Some(0) => {},
        _ => return None,
    }
    let rest = slice_subrange(t, 6, t.len());
    assert(rest@ =~= t@.skip(6));
    let eq = match find(rest, mark.as_slice()) {
        Some(eq) => eq,
        None => return None,
    };
    assert(eq == choose|i: int| first_occurrence(rest@, "=\""@, i));
    let value = slice_subrange(rest, eq + 2, rest.len());
    assert(value@ =~= rest@.skip(eq + 2));
    match rfind(value, '"') {
        Some(end) => {
            assert(end == choose|i: int| last_position(value@, '"', i));
            let from: usize = start + 6 + eq + 2;
            assert(value@.take(end as int) =~= line@.subrange(from as int, from + end));
            Some((from, from + end))
        },
        None => None,
    }
}

/// The length of the first line of a text, without its line feed.
fn line_len(text: &[char]) -> (n: usize)
    ensures
        n == first_line_len(text@),
        n <= text@.len(),
{
    let mut n: usize = 0;
    assert(text@.skip(0) =~= text@);
    while n < text.len() && text[n] != '\n'
        invariant
            n <= text@.len(),
            n + first_line_len(text@.skip(n as int)) == first_line_len(text@),
        ensures
            n <= text@.len(),
            n + first_line_len(text@.skip(n as int)) == first_line_len(text@),
            n == text@.len() || text@[n as int] == '\n',
        decreases text@.len() - n,
    {
        assert(text@.skip(n as int).drop_first() =~= text@.skip(n + 1));
        n = n + 1;
    }
    n
}

/// The account in what `security find-generic-password` prints about an item.
pub fn parse_keychain_account(text: &str) -> (r: Option<String>)
    ensures
        opt_text(r) == account_in(text@),
{
    let chars = chars_of(text);
    let all = chars.as_slice();
    let mut start: usize = 0;
    assert(text@.skip(0) =~= text@);
    loop
        invariant
            all@ == text@,
            start <= all@.len(),
            account_in(text@.skip(start as int)) == account_in(text@),
        decreases all@.len() - start,
    {
        let rest = slice_subrange(all, start, all.len());
        assert(rest@ =~= text@.skip(start as int));
        let n = line_len(rest);
        let line = slice_subrange(rest, 0, n);
        assert(line@ =~= rest@.take(n as int));
        assert(n == rest@.len() ==> line@ =~= rest@);
        match line_account(line) {
            Some((from, to)) => {
                assert(line@.subrange(from as int, to as int) =~= text@.subrange(
                    start + from,
                    start + to,
                ));
                return Some(text.substring_char(start + from, start + to).to_owned());
            },
            None => {},
        }
        if n == rest.len() {
            return None;
        }
        assert(rest@.skip(n + 1) =~= text@.skip(start + n + 1));
        start = start + n + 1;
    }
}

/// The arguments of the `security` command that prints the attributes of the item.
pub fn keychain_lookup_command(service: &str) -> (r: Vec<String>)
    ensures
        texts(r@) == seq!["find-generic-password"@, "-s"@, service@],
{
    let mut args: Vec<String> = Vec::new();
    args.push("find-generic-password".to_owned());
    args.push("-s".to_owned());
    args.push(service.to_owned());
    assert(texts(args@) =~= seq!["find-generic-password"@, "-s"@, service@]);
    args
}

/// The account of the item, by what the lookup printed; `None` where it failed or names none.
pub fn keychain_account(lookup: Option<CommandOutput>) -> (r: Option<String>)
    ensures
        opt_text(r) == match lookup {
            Some(output) => if output.success {
                account_in(lossy_text(output.stdout@))
            } else {
                None
            },
            None => None,
        },
{
    match lookup {
        Some(output) => if output.success {
            let text = utf8_text_lossy(&output.stdout);
            parse_keychain_account(text.as_str())
        } else {
            None
        },
        None => None,
    }
}

/// The arguments of the `security` command that updates the item in place. It names the account of
/// the existing item; without one nothing is written, so that no second item appears.
pub fn keychain_write_command(account: Option<String>, service: &str, json: &str) -> (r: Result<
    Vec<String>,
    LimitsError,
>)
    ensures
        match account {
            Some(a) => r is Ok && texts(r->Ok_0@) == seq![
                "add-generic-password"@,
                "-U"@,
                "-a"@,
                a@,
                "-s"@,
                service@,
                "-w"@,
                json@,
            ],
            None => r is Err && r->Err_0@ == LimitsErrorView::Bad("keychain account not found"@),
        },
{
    match account {
        Some(a) => {
            let ghost named = a@;
            let mut args: Vec<String> = Vec::new();
            args.push("add-generic-password".to_owned());
            args.push("-U".to_owned());
            args.push("-a".to_owned());
            args.push(a);
            args.push("-s".to_owned());
            args.push(service.to_owned());
            args.push("-w".to_owned());
            args.push(json.to_owned());
            assert(texts(args@) =~= seq![
                "add-generic-password"@,
                "-U"@,
                "-a"@,
                named,
                "-s"@,
                service@,
                "-w"@,
                json@,
            ]);
            Ok(args)
        },
        None => Err(LimitsError::Bad("keychain account not found".to_owned())),
    }
}

/// What a writing amounts to, by its view.
pub open spec fn written_view(r: Result<(), LimitsError>) -> Result<(), LimitsErrorView> {
    match r {
        Ok(u) => Ok(u),
        Err(e) => Err(e@),
    }
}

/// What the update of the keychain item amounts to: `status` says whether the command succeeded, or
/// why it could not be run.
pub fn keychain_write(status: Result<bool, String>) -> (r: Result<(), LimitsError>)
    ensures
        written_view(r) == match status {
            Ok(true) => Ok::<(), LimitsErrorView>(()),
            Ok(false) => Err(LimitsErrorView::Bad("keychain update failed"@)),
            Err(m) => Err(LimitsErrorView::Bad(m@)),
        },
{
    match status {
        Ok(true) => Ok(()),
        Ok(false) => Err(LimitsError::Bad("keychain update failed".to_owned())),
        Err(m) => Err(LimitsError::Bad(m)),
    }
}

/// Where the atomic replacement of the credentials file stands.
pub enum FileWrite {
    /// The new text is being written to a temporary file in the same directory.
    WritingTemp,
    /// The temporary file is being renamed to the credentials file.
    Renaming,
    /// The temporary file is being removed, since the renaming failed.
    RemovingTemp { message: String },
}

/// What is to be done next for a replacement.
#[derive(Debug, Clone, Copy, PartialEq, Eq, Structural)]
pub enum FileWriteAction {
    WriteTemp,
    Rename,
    RemoveTemp,
}

/// What a step of a replacement leads to.
pub enum FileWriteStep {
    Wait { flow: FileWrite, action: FileWriteAction },
    Done(Result<(), LimitsError>),
}

pub ghost enum FileWriteView {
    WritingTemp,
    Renaming,
    RemovingTemp { message: Seq<char> },
}

pub ghost enum FileWriteStepView {
    Wait { flow: FileWriteView, action: FileWriteAction },
    Done(Result<(), LimitsErrorView>),
}

impl View for FileWrite {
    type V = FileWriteView;

    open spec fn view(&self) -> FileWriteView {
        match self {
            FileWrite::WritingTemp => FileWriteView::WritingTemp,
            FileWrite::Renaming => FileWriteView::Renaming,
            FileWrite::RemovingTemp { message } => FileWriteView::RemovingTemp {
                message: message@,
            },
        }
    }
}

impl View for FileWriteStep {
    type V = FileWriteStepView;

    open spec fn view(&self) -> FileWriteStepView {
        match self {
            FileWriteStep::Wait { flow, action } => FileWriteStepView::Wait {
                flow: flow@,
                action: *action,
            },
            FileWriteStep::Done(r) => FileWriteStepView::Done(written_view(*r)),
        }
    }
}

impl FileWriteView {
    /// What the outcome of the action under way leads to; an error comes with its message.
    pub open spec fn next(self, outcome: Result<(), Seq<char>>) -> FileWriteStepView {
        match self {
            FileWriteView::WritingTemp => match outcome {
                Ok(_) => FileWriteStepView::Wait {
                    flow: FileWriteView::Renaming,
                    action: FileWriteAction::Rename,
                },
                Err(m) => FileWriteStepView::Done(Err(LimitsErrorView::Bad(m))),
            },
            FileWriteView::Renaming => match outcome {
                Ok(_) => FileWriteStepView::Done(Ok(())),
                Err(m) => FileWriteStepView::Wait {
                    flow: FileWriteView::RemovingTemp { message: m },
                    action: FileWriteAction::RemoveTemp,
                },
            },
            FileWriteView::RemovingTemp { message } => FileWriteStepView::Done(
                Err(LimitsErrorView::Bad(message)),
            ),
        }
    }
}

impl FileWrite {
    /// Begins a replacement: the temporary file is to be written.
    pub fn start() -> (r: (FileWrite, FileWriteAction))
        ensures
            r.0@ == FileWriteView::WritingTemp,
            r.1 == FileWriteAction::WriteTemp,
    {
        (FileWrite::WritingTemp, FileWriteAction::WriteTemp)
    }

    /// Takes the step that the outcome of the action under way leads to.
    pub fn step(self, outcome: Result<(), String>) -> (r: FileWriteStep)
        ensures
            r@ == self@.next(
                match outcome {
                    Ok(_) => Ok(()),
                    Err(m) => Err(m@),
                },
            ),
    {
        match self {
            FileWrite::WritingTemp => match outcome {
                Ok(_) => FileWriteStep::Wait {
                    flow: FileWrite::Renaming,
                    action: FileWriteAction::Rename,
                },
                Err(m) => FileWriteStep::Done(Err(LimitsError::Bad(m))),
            },
            FileWrite::Renaming => match outcome {
                Ok(_) => FileWriteStep::Done(Ok(())),
                Err(m) => FileWriteStep::Wait {
                    flow: FileWrite::RemovingTemp { message: m },
                    action: FileWriteAction::RemoveTemp,
                },
            },
            FileWrite::RemovingTemp { message } => FileWriteStep::Done(
                Err(LimitsError::Bad(message)),
            ),
        }
    }
}

/// The replacement is atomic: the credentials file is touched by nothing but a renaming that comes
/// after the whole text was written elsewhere, success is reported for a renaming that succeeded and
/// for nothing else, and a failed renaming is followed by the removal of the temporary file.
pub proof fn law_replacement_is_atomic(
    write: Result<(), Seq<char>>,
    rename: Result<(), Seq<char>>,
    remove: Result<(), Seq<char>>,
)
    ensures
        match FileWriteView::WritingTemp.next(write) {
            FileWriteStepView::Wait { flow, action } => {
                &&& write is Ok
                &&& action == FileWriteAction::Rename
                &&& match flow.next(rename) {
                    FileWriteStepView::Done(r) => rename is Ok && r is Ok,
                    FileWriteStepView::Wait { flow: last, action: next } => {
                        &&& rename is Err
                        &&& next == FileWriteAction::RemoveTemp
                        &&& last.next(remove) == FileWriteStepView::Done(
                            Err(LimitsErrorView::Bad(rename->Err_0)),
                        )
                    },
                }
            },
            FileWriteStepView::Done(r) => write is Err && r is Err,
        },
{
}

/// What the credentials file and the temporary file beside it hold; `None` for a file that is not
/// there.
pub ghost struct Disk {
    pub file: Option<Seq<char>>,
    pub temp: Option<Seq<char>>,
}

/// Whether an action of a replacement by `json` can end with an outcome and turn one disk into
/// another. A text that was written is there as a whole; a failed writing may leave anything in the
/// temporary file. A renaming puts the temporary file in the place of the credentials file, or does
/// nothing.
pub open spec fn performed(
    action: FileWriteAction,
    json: Seq<char>,
    before: Disk,
    outcome: Result<(), Seq<char>>,
    after: Disk,
) -> bool {
    match action {
        FileWriteAction::WriteTemp => after.file == before.file && (outcome is Ok ==> after.temp
            == Some(json)),
        FileWriteAction::Rename => if outcome is Ok {
            before.temp is Some && after == (Disk { file: before.temp, temp: None })
        } else {
            after == before
        },
        FileWriteAction::RemoveTemp => if outcome is Ok {
            after == (Disk { file: before.file, temp: None })
        } else {
            after == before
        },
    }
}

/// Whether the end of a replacement by `json` is a sound one: after a success the file holds the
/// text, the temporary file is gone, and a reading of the store gives the text back; after a failure
/// the file holds what it held before, and the error carries a message.
pub open spec fn replaced_or_kept(
    result: Result<(), LimitsErrorView>,
    json: Seq<char>,
    before: Disk,
    after: Disk,
) -> bool {
    match result {
        Ok(_) => {
            &&& after == (Disk { file: Some(json), temp: None })
            &&& forall|text: Option<String>|
                opt_text(text) == after.file ==> #[trigger] raw_text(RawRead::File(text)) == Ok::<
                    Seq<char>,
                    LimitsErrorView,
                >(json)
        },
        Err(e) => e is Bad && after.file == before.file,
    }
}

/// Whether a replacement by `json` that stands at `flow`, with `action` to be done next, ends with a
/// result and a disk; `steps` are the outcomes of its actions and the disks after them.
pub open spec fn replacement_ends(
    flow: FileWriteView,
    action: FileWriteAction,
    json: Seq<char>,
    disk: Disk,
    steps: Seq<(Result<(), Seq<char>>, Disk)>,
    result: Result<(), LimitsErrorView>,
    end: Disk,
) -> bool
    decreases steps.len(),
{
    &&& steps.len() > 0
    &&& performed(action, json, disk, steps[0].0, steps[0].1)
    &&& match flow.next(steps[0].0) {
        FileWriteStepView::Done(r) => steps.len() == 1 && r == result && end == steps[0].1,
        FileWriteStepView::Wait { flow: next, action: what } => replacement_ends(
            next,
            what,
            json,
            steps[0].1,
            steps.skip(1),
            result,
            end,
        ),
    }
}

/// However its actions end, a replacement leaves in the credentials file either the whole new text,
/// which the next reading gives back, or, with an error, exactly what it held before. It takes three
/// actions at most. Where the renaming fails, the third one removes the temporary file, which is gone
/// if that succeeds.
pub proof fn law_file_holds_the_old_or_the_new_text(
    json: Seq<char>,
    before: Disk,
    steps: Seq<(Result<(), Seq<char>>, Disk)>,
    result: Result<(), LimitsErrorView>,
    end: Disk,
)
    requires
        replacement_ends(
            FileWriteView::WritingTemp,
            FileWriteAction::WriteTemp,
            json,
            before,
            steps,
            result,
            end,
        ),
    ensures
        replaced_or_kept(result, json, before, end),
        1 <= steps.len() <= 3,
        steps.len() == 3 <==> steps[0].0 is Ok && steps[1].0 is Err,
        steps.len() == 3 ==> performed(
            FileWriteAction::RemoveTemp,
            json,
            steps[1].1,
            steps[2].0,
            end,
        ),
        steps.len() == 3 && steps[2].0 is Ok ==> end.temp is None,
{
    reveal_with_fuel(replacement_ends, 4);
    if steps.len() > 1 {
        assert(steps.skip(1)[0] == steps[1]);
    }
    if steps.len() > 2 {
        assert(steps.skip(1).skip(1)[0] == steps[2]);
    }
}

/// A reading gives the text of the file, or what the command printed where it succeeded and printed
/// UTF-8; everything else counts as no credentials.
pub proof fn law_reading_gives_the_text(outcome: RawRead)
    ensures
        outcome matches RawRead::File(Some(text)) ==> raw_text(outcome) == Ok::<
            Seq<char>,
            LimitsErrorView,
        >(text@),
        outcome matches RawRead::Command(Some(output)) ==> (output.success && valid_utf8(
            output.stdout@,
        ) ==> raw_text(outcome) == Ok::<Seq<char>, LimitsErrorView>(decode_utf8(output.stdout@))),
        raw_text(outcome) is Ok ==> match outcome {
            RawRead::File(text) => text is Some,
            RawRead::Command(output) => output is Some && output->0.success && valid_utf8(
                output->0.stdout@,
            ),
        },
        raw_text(outcome) matches Err(e) ==> e is NoCredentials,
{
}

/// A line that gives the account names it, whatever the account holds: quotation marks and equals signs
/// in it are part of it. What stands between the name of the attribute and the first equals sign does
/// not matter, nor does white space around the line.
pub proof fn law_account_is_read_from_its_line(
    before: Seq<char>,
    middle: Seq<char>,
    account: Seq<char>,
    after: Seq<char>,
)
    requires
        !middle.contains('='),
        forall|i: int| 0 <= i < before.len() ==> is_white(#[trigger] before[i]),
        forall|i: int| 0 <= i < after.len() ==> is_white(#[trigger] after[i]),
    ensures
        account_in_line(
            before + ("\"acct\""@ + middle + "=\""@ + account + "\""@) + after,
        ) == Some(account),
{
    reveal_strlit("\"acct\"");
    reveal_strlit("=\"");
    reveal_strlit("\"");
    let line = "\"acct\""@ + middle + "=\""@ + account + "\""@;
    law_white_space_around_does_not_matter(before, line, after);
    let m = middle.len() as int;
    assert(line.first() == '"' && line.last() == '"');
    assert(!is_white('"'));
    assert(trimmed(line) == line);
    assert(line.subrange(0, 6) =~= "\"acct\""@);
    assert(occurs_at(line, "\"acct\""@, 0));
    let rest = line.skip(6);
    assert(rest.subrange(m, m + 2) =~= "=\""@);
    assert(occurs_at(rest, "=\""@, m));
    assert forall|j: int| 0 <= j < m implies !occurs_at(rest, "=\""@, j) by {
        assert(rest[j] == middle[j]);
        if occurs_at(rest, "=\""@, j) {
            assert(rest.subrange(j, j + 2)[0] == rest[j]);
        }
    }
    assert(first_occurrence(rest, "=\""@, m));
    let eq = choose|i: int| first_occurrence(rest, "=\""@, i);
    assert(eq == m);
    let value = rest.skip(m + 2);
    assert(value =~= account + "\""@);
    let n = account.len() as int;
    assert(value[n] == '"');
    assert(value.contains('"'));
    assert(last_position(value, '"', n));
    let end = choose|i: int| last_position(value, '"', i);
    assert(end == n);
    assert(value.take(n) =~= account);
}

/// Nothing else is read as an account: a line that names one starts with the name of the attribute, has
/// an equals sign and a quotation mark before the account, and none of this pair before that, and a
/// quotation mark behind the account, and none after that.
pub proof fn law_account_stands_in_its_line(line: Seq<char>)
    ensures
        account_in_line(line) matches Some(account) ==> exists|middle: Seq<char>, tail: Seq<char>|
            trimmed(line) == #[trigger] ("\"acct\""@ + middle + "=\""@ + account + "\""@ + tail)
                && !tail.contains('"') && !occurs_in(middle, "=\""@),
{
    if let Some(account) = account_in_line(line) {
        reveal_strlit("\"acct\"");
        reveal_strlit("=\"");
        reveal_strlit("\"");
        let t = trimmed(line);
        let rest = t.skip(6);
        let i = choose|i: int| occurs_at(rest, "=\""@, i);
        lemma_occurs_first(rest, "=\""@, i);
        let eq = choose|i: int| first_occurrence(rest, "=\""@, i);
        let value = rest.skip(eq + 2);
        let k = choose|k: int| 0 <= k < value.len() && value[k] == '"';
        lemma_stands_last(value, '"', k);
        let end = choose|i: int| last_position(value, '"', i);
        let middle = rest.take(eq);
        let tail = value.skip(end + 1);
        assert(t.subrange(0, 6) == "\"acct\""@);
        assert(rest.subrange(eq, eq + 2) == "=\""@);
        assert(t =~= t.subrange(0, 6) + middle + rest.subrange(eq, eq + 2) + value.take(end)
            + seq![value[end]] + tail);
        assert(seq![value[end]] =~= "\""@);
        assert forall|j: int| 0 <= j < tail.len() implies tail[j] != '"' by {
            assert(tail[j] == value[end + 1 + j]);
        }
        if occurs_in(middle, "=\""@) {
            let j = choose|j: int| occurs_at(middle, "=\""@, j);
            assert(rest.subrange(j, j + 2) =~= middle.subrange(j, j + 2));
            assert(occurs_at(rest, "=\""@, j));
        }
        assert(t == "\"acct\""@ + middle + "=\""@ + account + "\""@ + tail);
    }
}

/// The first line that names an account decides: a line that names one hides those behind it, and a
/// line that names none is passed over.
pub proof fn law_first_naming_line_decides(line: Seq<char>, rest: Seq<char>)
    requires
        !line.contains('\n'),
    ensures
        account_in(line) == account_in_line(line),
        account_in(line.push('\n') + rest) == match account_in_line(line) {
            Some(account) => Some(account),
            None => account_in(rest),
        },
{
    let text = line.push('\n') + rest;
    lemma_first_line(line, rest);
    assert(text.take(line.len() as int) =~= line);
    assert(text.skip(line.len() as int + 1) =~= rest);
}

proof fn lemma_first_line(line: Seq<char>, rest: Seq<char>)
    requires
        !line.contains('\n'),
    ensures
        first_line_len(line) == line.len(),
        first_line_len(line.push('\n') + rest) == line.len(),
    decreases line.len(),
{
    let text = line.push('\n') + rest;
    if line.len() > 0 {
        let tail = line.drop_first();
        assert(line[0] != '\n');
        assert forall|c: char| tail.contains(c) implies line.contains(c) by {
            let i = choose|i: int| 0 <= i < tail.len() && tail[i] == c;
            assert(line[i + 1] == c);
        }
        lemma_first_line(tail, rest);
        assert(text.drop_first() =~= tail.push('\n') + rest);
        assert(text.first() == line.first());
    } else {
        assert(text.first() == '\n');
    }
}

/// The error of a replacement that failed is the one that made it fail, whatever came after it.
pub proof fn law_replacement_tells_why_it_failed(
    cause: Seq<char>,
    outcome: Result<(), Seq<char>>,
)
    ensures
        FileWriteView::WritingTemp.next(Err(cause)) == FileWriteStepView::Done(
            Err(LimitsErrorView::Bad(cause)),
        ),
        FileWriteView::Renaming.next(Err(cause)) matches FileWriteStepView::Wait { flow, action }
            && action == FileWriteAction::RemoveTemp && flow.next(outcome)
            == FileWriteStepView::Done(Err(LimitsErrorView::Bad(cause))),
        FileWriteView::Renaming.next(Ok(())) == FileWriteStepView::Done(Ok(())),
{
}

} // verus!
