//! What a run of Lark's command line tool came to.
use vstd::prelude::*;
use vstd::utf8::{decode_utf8, valid_utf8};
use crate::json;
use crate::json::Json;
use crate::numbers;
use crate::pieces;
use crate::text;
use crate::utf8;

verus! {

/// The name of the tool.
pub const BIN: &'static str = "lark-cli";

/// Seconds that a run may take.
pub const DEFAULT_TIMEOUT_SEC: u64 = 30;

/// Lines of the output, and of the error output, that a failure is reported with.
pub const STDOUT_TAIL: usize = 30;

pub const STDERR_TAIL: usize = 10;

/// How a run ended.
pub enum CliRun {
    NotStarted { error: String },
    Broken { error: String },
    TimedOut,
    /// The tool came to its end, with success or without.
    Ended { success: bool, code: Option<i32>, stdout: Vec<u8>, stderr: Vec<u8> },
}

/// The last lines of a text.
pub open spec fn tail_of(s: Seq<char>, n: nat) -> Seq<char> {
    let lines = pieces::split_of(pieces::trimmed(s), "\n"@);
    if lines.len() <= n {
        pieces::joined(lines, "\n"@)
    } else {
        pieces::joined(lines.skip(lines.len() - n), "\n"@)
    }
}

/// The last lines of a text.
pub fn tail_lines(s: &str, n: usize) -> (r: String)
    ensures
        r@ == tail_of(s@, n as nat),
{
    proof {
        reveal_strlit("\n");
    }
    let trimmed = pieces::trim(s);
    let lines = pieces::split(trimmed.as_str(), "\n");
    let ghost all = text::texts(lines@);
    if lines.len() <= n {
        return pieces::join(&lines, "\n");
    }
    let start: usize = lines.len() - n;
    let mut last: Vec<String> = Vec::new();
    let mut i: usize = start;
    while i < lines.len()
        invariant
            start <= i <= lines@.len(),
            all == text::texts(lines@),
            text::texts(last@) == all.subrange(start as int, i as int),
        decreases lines@.len() - i,
    {
        let ghost before = text::texts(last@);
        last.push(lines[i].clone());
        assert(text::texts(last@) =~= before.push(lines@[i as int]@));
        i += 1;
        assert(text::texts(last@) =~= all.subrange(start as int, i as int));
    }
    assert(text::texts(last@) =~= all.skip(start as int));
    pieces::join(&last, "\n")
}

/// An exit code as it is reported.
pub open spec fn code_text(code: Option<i32>) -> Seq<char> {
    match code {
        Some(n) => "Some("@ + numbers::signed_decimal(n as int) + ")"@,
        None => "None"@,
    }
}

/// A part of the output, where there is any.
pub open spec fn output_part(heading: Seq<char>, tail: Seq<char>) -> Seq<char> {
    if tail.len() == 0 {
        seq![]
    } else {
        heading + tail
    }
}

/// What is said of a run that failed.
pub open spec fn failure_of(
    label: Seq<char>,
    code: Option<i32>,
    stdout: Seq<char>,
    stderr: Seq<char>,
) -> Seq<char> {
    "lark-cli "@ + label + " failed (code "@ + code_text(code) + ")"@ + output_part(
        "\nstdout:\n"@,
        tail_of(stdout, STDOUT_TAIL as nat),
    ) + output_part("\nstderr:\n"@, tail_of(stderr, STDERR_TAIL as nat))
}

/// What is said of a run that failed.
pub fn failure_message(label: &str, code: Option<i32>, stdout: &str, stderr: &str) -> (r: String)
    ensures
        r@ == failure_of(label@, code, stdout@, stderr@),
{
    let mut out = "lark-cli ".to_string();
    out.append(label);
    out.append(" failed (code ");
    let ghost head = out@;
    match code {
        Some(n) => {
            out.append("Some(");
            out.append(numbers::signed_decimal_string(n as i64).as_str());
            out.append(")");
        },
        None => {
            out.append("None");
        },
    }
    assert(out@ =~= head + code_text(code));
    out.append(")");
    let ghost before = out@;
    let stdout_tail = tail_lines(stdout, STDOUT_TAIL);
    if !stdout_tail.as_str().is_empty() {
        out.append("\nstdout:\n");
        out.append(stdout_tail.as_str());
    }
    assert(out@ =~= before + output_part("\nstdout:\n"@, stdout_tail@));
    let ghost with_stdout = out@;
    let stderr_tail = tail_lines(stderr, STDERR_TAIL);
    if !stderr_tail.as_str().is_empty() {
        out.append("\nstderr:\n");
        out.append(stderr_tail.as_str());
    }
    assert(out@ =~= with_stdout + output_part("\nstderr:\n"@, stderr_tail@));
    out
}

/// What a successful run answered, from what its output means as JSON: nothing where it is
/// blank, and the output itself where it is not JSON.
pub open spec fn answer_of(stdout: Seq<char>, meant: Option<json::Tree>) -> json::Tree {
    if pieces::trimmed(stdout).len() == 0 {
        json::Tree::Null
    } else {
        match meant {
            Some(t) => t,
            None => json::Tree::Object(seq![("raw"@, json::Tree::Text(stdout))]),
        }
    }
}

/// What a successful run answered, from its output and what that was parsed to.
pub fn answer_from(stdout: &str, parsed: Option<Json>) -> (r: Json)
    ensures
        r@ == answer_of(stdout@, json::opt_json(parsed)),
{
    if pieces::trim(stdout).as_str().is_empty() {
        return Json::Null;
    }
    match parsed {
        Some(j) => j,
        None => {
            let mut m: Vec<(String, Json)> = Vec::new();
            m.push(("raw".to_string(), Json::text(stdout)));
            let r = Json::object(m);
            assert(r@->Object_0 =~= seq![("raw"@, json::Tree::Text(stdout@))]);
            r
        },
    }
}

/// What is said of a run that did not succeed. The outputs of a tool that failed are shown
/// as far as they are text; one that succeeded has to answer with text.
pub open spec fn complaint(run: CliRun, label: Seq<char>) -> Option<Seq<char>> {
    match run {
        CliRun::NotStarted { error } => Some("spawn lark-cli failed: "@ + error@),
        CliRun::Broken { error } => Some("lark-cli "@ + label + " I/O error: "@ + error@),
        CliRun::TimedOut => Some("lark-cli "@ + label + " timed out"@),
        CliRun::Ended { success, code, stdout, stderr } => if !success {
            Some(failure_of(label, code, utf8::lossy_text(stdout@), utf8::lossy_text(stderr@)))
        } else if !valid_utf8(stdout@) {
            Some("lark-cli "@ + label + " non-utf8: "@ + utf8::utf8_complaint(stdout@))
        } else {
            None
        },
    }
}

fn labelled(label: &str, what: &str, error: &str) -> (r: String)
    ensures
        r@ == "lark-cli "@ + label@ + what@ + error@,
{
    let mut out = "lark-cli ".to_string();
    out.append(label);
    out.append(what);
    out.append(error);
    out
}

/// What a run came to: what the tool answered, or what is said of the failure.
pub fn run_in(label: &str, run: CliRun) -> (r: Result<Json, String>)
    ensures
        match (r, complaint(run, label@)) {
            (Err(e), Some(c)) => e@ == c,
            (Ok(j), None) => run matches CliRun::Ended { stdout, .. } && j@ == answer_of(
                decode_utf8(stdout@),
                json::meaning(decode_utf8(stdout@)),
            ),
            _ => false,
        },
{
    match run {
        CliRun::NotStarted { error } => {
            let mut out = "spawn lark-cli failed: ".to_string();
            out.append(error.as_str());
            Err(out)
        },
        CliRun::Broken { error } => Err(labelled(label, " I/O error: ", error.as_str())),
        CliRun::TimedOut => {
            let out = labelled(label, " timed out", "");
            proof {
                reveal_strlit("");
                assert(out@ =~= "lark-cli "@ + label@ + " timed out"@);
            }
            Err(out)
        },
        CliRun::Ended { success, code, stdout, stderr } => {
            if !success {
                let out = utf8::text_from_utf8_lossy(stdout.as_slice());
                let err = utf8::text_from_utf8_lossy(stderr.as_slice());
                return Err(failure_message(label, code, out.as_str(), err.as_str()));
            }
            match utf8::text_from_utf8(stdout) {
                Ok(answer) => {
                    let parsed = json::parse(answer.as_str());
                    Ok(answer_from(answer.as_str(), parsed))
                },
                Err(e) => Err(labelled(label, " non-utf8: ", e.as_str())),
            }
        },
    }
}

// ---------------------------------------------------------------------------
// Laws
// ---------------------------------------------------------------------------

/// The last lines are the end of the text, are as many as were asked for where there are so
/// many, and are empty only where the text says nothing.
pub proof fn law_last_lines_end_the_text(s: Seq<char>, n: nat)
    requires
        n > 0,
    ensures
        text::ends(pieces::trimmed(s), tail_of(s, n)),
        ({
            let lines = pieces::split_of(pieces::trimmed(s), "\n"@);
            let last = pieces::split_of(tail_of(s, n), "\n"@);
            &&& last.len() == (if lines.len() < n {
                lines.len()
            } else {
                n
            })
            &&& last == lines.skip(lines.len() - last.len())
        }),
        tail_of(s, n).len() == 0 <==> pieces::trimmed(s).len() == 0,
{
    broadcast use text::lemma_occurs_char;

    reveal_strlit("\n");
    let sep = "\n"@;
    assert(sep =~= seq!['\n']);
    let t = pieces::trimmed(s);
    let lines = pieces::split_of(t, sep);
    pieces::law_split_pieces_make_up_the_text(t, sep);
    pieces::lemma_trimmed_ends(s);
    assert(t.skip(0) =~= t);
    assert(lines.skip(0) =~= lines);
    if lines.len() > n {
        let k = lines.len() - n;
        let front = lines.take(k);
        let last = lines.skip(k);
        assert(lines =~= front + last);
        pieces::law_runs_of_pieces_are_joined(front, last, sep);
        let tail = pieces::joined(last, sep);
        let head = pieces::joined(front, sep) + sep;
        assert(t == head + tail);
        assert(t.skip(t.len() - tail.len()) =~= tail);
        assert forall|i: int| 0 <= i < last.len() implies !(#[trigger] last[i]).contains('\n') by {
            let line = lines[i + k];
            assert(line == last[i]);
            if line.contains('\n') {
                let j = choose|j: int| 0 <= j < line.len() && line[j] == '\n';
                assert(text::occurs_at(line, sep, j));
            }
        }
        pieces::law_joined_pieces_are_told_apart(last, '\n');
        if tail.len() == 0 {
            assert(t =~= head);
            assert(t.last() == '\n');
        }
    }
}

/// What is said of a failure tells the command and its code, then up to 30 lines of what it
/// wrote and up to 10 of what it complained about, each only where there is something.
pub proof fn law_failures_tell_what_was_written(
    label: Seq<char>,
    n: i32,
    stdout: Seq<char>,
    stderr: Seq<char>,
)
    ensures
        ({
            let coded = "lark-cli "@ + label + " failed (code "@ + ("Some("@ + numbers::signed_decimal(
                n as int,
            ) + ")"@) + ")"@;
            let silent = "lark-cli "@ + label + " failed (code "@ + "None"@ + ")"@;
            let wrote = "\nstdout:\n"@ + tail_of(stdout, 30);
            let complained = "\nstderr:\n"@ + tail_of(stderr, 10);
            &&& text::begins(failure_of(label, Some(n), stdout, stderr), coded)
            &&& text::begins(failure_of(label, None, stdout, stderr), silent)
            &&& pieces::trimmed(stdout).len() > 0 && pieces::trimmed(stderr).len() > 0
                ==> failure_of(label, Some(n), stdout, stderr) == coded + wrote + complained
            &&& pieces::trimmed(stdout).len() == 0 && pieces::trimmed(stderr).len() > 0
                ==> failure_of(label, Some(n), stdout, stderr) == coded + complained
            &&& pieces::trimmed(stdout).len() > 0 && pieces::trimmed(stderr).len() == 0
                ==> failure_of(label, None, stdout, stderr) == silent + wrote
            &&& pieces::trimmed(stdout).len() == 0 && pieces::trimmed(stderr).len() == 0
                ==> failure_of(label, None, stdout, stderr) == silent
        }),
{
    law_last_lines_end_the_text(stdout, 30);
    law_last_lines_end_the_text(stderr, 10);
    let coded = "lark-cli "@ + label + " failed (code "@ + ("Some("@ + numbers::signed_decimal(
        n as int,
    ) + ")"@) + ")"@;
    let silent = "lark-cli "@ + label + " failed (code "@ + "None"@ + ")"@;
    let none = Seq::<char>::empty();
    let wrote = "\nstdout:\n"@ + tail_of(stdout, 30);
    let complained = "\nstderr:\n"@ + tail_of(stderr, 10);
    assert(failure_of(label, Some(n), stdout, stderr).take(coded.len() as int) =~= coded);
    assert(failure_of(label, None, stdout, stderr).take(silent.len() as int) =~= silent);
    assert(coded + none + complained =~= coded + complained);
    assert(silent + wrote + none =~= silent + wrote);
    assert(silent + none + none =~= silent);
}

/// An answer is what it was parsed to; one that is no JSON is kept as it was written, and
/// none is null.
pub proof fn law_answers_are_kept(stdout: Seq<char>, t: json::Tree)
    ensures
        pieces::says_something(stdout) ==> answer_of(stdout, Some(t)) == t,
        pieces::says_something(stdout) ==> answer_of(stdout, None).get("raw"@) == Some(
            json::Tree::Text(stdout),
        ),
        !pieces::says_something(stdout) ==> answer_of(stdout, Some(t)) == json::Tree::Null
            && answer_of(stdout, None) == json::Tree::Null,
{
    pieces::law_trimming_takes_only_white_space(stdout);
    json::lemma_member_at(seq![("raw"@, json::Tree::Text(stdout))], 0);
}

/// A run that ended well and wrote UTF-8 has no complaint, and every other has one. One that
/// did not start or broke off says why.
pub proof fn law_only_failed_runs_are_complained_about(run: CliRun, label: Seq<char>)
    ensures
        complaint(run, label) is None <==> (run matches CliRun::Ended { success, stdout, .. }
            && success && valid_utf8(stdout@)),
        run matches CliRun::NotStarted { error } ==> text::ends(complaint(run, label)->0, error@),
        run matches CliRun::Broken { error } ==> text::ends(complaint(run, label)->0, error@)
            && text::begins(complaint(run, label)->0, "lark-cli "@ + label),
        run is TimedOut ==> complaint(run, label) == Some("lark-cli "@ + label + " timed out"@),
{
    match run {
        CliRun::NotStarted { error } => {
            let c = "spawn lark-cli failed: "@ + error@;
            assert(c.skip(c.len() - error@.len()) =~= error@);
        },
        CliRun::Broken { error } => {
            let c = "lark-cli "@ + label + " I/O error: "@ + error@;
            assert(c.skip(c.len() - error@.len()) =~= error@);
            assert(c.take(("lark-cli "@ + label).len() as int) =~= "lark-cli "@ + label);
        },
        _ => {},
    }
}

/// A run that ended well but wrote no UTF-8 is told by its command and by where the text
/// breaks.
pub proof fn law_broken_text_is_told(
    label: Seq<char>,
    code: Option<i32>,
    stdout: Vec<u8>,
    stderr: Vec<u8>,
)
    requires
        !valid_utf8(stdout@),
    ensures
        complaint(CliRun::Ended { success: true, code, stdout, stderr }, label) == Some(
            "lark-cli "@ + label + " non-utf8: "@ + utf8::utf8_complaint(stdout@),
        ),
{
}

} // verus!
