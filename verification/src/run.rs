//! What running an install step came to, and the text it wrote.
//!
//! Starting the child process and reading its pipes is the caller's part; this
//! module decides what a finished, missing or failed command means, and turns
//! the bytes a step wrote into the lines that are reported.

use vstd::prelude::*;

use crate::plan::Step;
use crate::text::{chars_of, trim_end, trim_end_str};

verus! {

#[derive(Debug, Clone, PartialEq, Eq)]
pub enum Status {
    Installed,
    /// The tool is not installed, so there was nothing to run.
    Skipped { reason: String },
    Failed { code: Option<i32> },
}

#[derive(Debug)]
pub struct Outcome {
    pub name: &'static str,
    pub status: Status,
    /// Every line the command wrote to stdout or stderr, in the order they
    /// arrived; empty when it never ran.
    pub output: String,
    pub duration: std::time::Duration,
}

impl Outcome {
    pub fn failed(&self) -> (r: bool)
        ensures
            r == self.status is Failed,
    {
        match self.status {
            Status::Failed { .. } => true,
            _ => false,
        }
    }
}

/// How an attempt to run a step's command ended, as the process layer saw it.
#[derive(Debug, Clone, PartialEq, Eq)]
pub enum Execution {
    /// The command ran to completion; `code` is its exit code, when it exited
    /// with one, and `output` everything it wrote.
    Exited { success: bool, code: Option<i32>, output: String },
    /// The program was not found, so nothing ran.
    NotFound,
    /// The command could not be started or waited for, for another reason,
    /// given as `message`; it never ran, so it wrote nothing.
    Error { message: String },
}

/// The outcome of running `step` that ended as `execution` after `duration`.
pub fn run(step: &Step, execution: Execution, duration: std::time::Duration) -> (r: Outcome)
    ensures
        r.name == step.name,
        r.duration == duration,
        match execution {
            Execution::Exited { success, code, output } => {
                &&& r.output@ == output@
                &&& success ==> r.status is Installed
                &&& !success ==> r.status == (Status::Failed { code })
            },
            Execution::NotFound => {
                &&& r.status is Skipped
                &&& r.status->reason@ == step.program@ + " not found"@
                &&& r.output@ == Seq::<char>::empty()
            },
            Execution::Error { .. } => {
                &&& r.status == (Status::Failed { code: None })
                &&& r.output@ == Seq::<char>::empty()
            },
        },
{
    let (status, output) = match execution {
        Execution::Exited { success, code, output } => {
            let status = if success {
                Status::Installed
            } else {
                Status::Failed { code }
            };
            (status, output)
        },
        Execution::NotFound => {
            let mut reason = String::from_str(step.program);
            reason.append(" not found");
            (Status::Skipped { reason }, String::new())
        },
        Execution::Error { .. } => (Status::Failed { code: None }, String::new()),
    };
    Outcome { name: step.name, status, output, duration }
}

/// `s` joined as lines: each followed by a line feed.
pub open spec fn as_lines(s: Seq<Seq<char>>) -> Seq<char>
    decreases s.len(),
{
    if s.len() == 0 {
        Seq::empty()
    } else {
        as_lines(s.drop_last()) + s.last() + seq!['\n']
    }
}

/// The text kept of a step's output: its lines, each ended by a line feed, with
/// the trailing whitespace removed.
pub fn transcript(lines: &Vec<String>) -> (r: String)
    ensures
        r@ == trim_end(as_lines(lines@.map_values(|l: String| l@))),
{
    let ghost ls = lines@.map_values(|l: String| l@);
    let mut all = String::new();
    let mut i: usize = 0;
    while i < lines.len()
        invariant
            0 <= i <= lines@.len(),
            ls == lines@.map_values(|l: String| l@),
            all@ == as_lines(ls.take(i as int)),
        decreases lines@.len() - i,
    {
        all.append(lines[i].as_str());
        all.append("\n");
        proof {
            reveal_strlit("\n");
            assert(ls.take(i + 1).drop_last() =~= ls.take(i as int));
        }
        i = i + 1;
    }
    assert(ls.take(i as int) =~= ls);
    String::from_str(trim_end_str(all.as_str()))
}

/// What `String::from_utf8_lossy` makes of `bytes`: the text they encode, with
/// each sequence that is not UTF-8 replaced by U+FFFD.
pub uninterp spec fn lossy_utf8(bytes: Seq<u8>) -> Seq<char>;

/// Calls `String::from_utf8_lossy`. Its documentation promises that valid UTF-8
/// is decoded as it stands, which is stated; how invalid sequences are replaced
/// is named by `lossy_utf8` and not spelled out.
#[verifier::external_body]
fn decode_lossy(bytes: &[u8]) -> (r: String)
    ensures
        r@ == lossy_utf8(bytes@),
        vstd::utf8::valid_utf8(bytes@) ==> r@ == vstd::utf8::decode_utf8(bytes@),
{
    String::from_utf8_lossy(bytes).into_owned()
}

/// `s` without the line feeds and carriage returns that end it.
pub open spec fn strip_line_end(s: Seq<char>) -> Seq<char>
    decreases s.len(),
{
    if s.len() > 0 && (s.last() == '\n' || s.last() == '\r') {
        strip_line_end(s.drop_last())
    } else {
        s
    }
}

/// `text` without the line feeds and carriage returns that end it.
pub fn trim_line_end(text: &str) -> (r: String)
    ensures
        r@ == strip_line_end(text@),
{
    let v = chars_of(text);
    let mut end: usize = v.len();
    assert(v@.subrange(0, end as int) =~= v@);
    while end > 0 && (v[end - 1] == '\n' || v[end - 1] == '\r')
        invariant
            end <= v.len(),
            v@ == text@,
            strip_line_end(v@) == strip_line_end(v@.subrange(0, end as int)),
        decreases end,
    {
        assert(v@.subrange(0, end as int).drop_last() =~= v@.subrange(0, end - 1));
        end = end - 1;
    }
    String::from_str(text.substring_char(0, end))
}

/// A line as a step wrote it, ending included, made readable: bytes that are not
/// UTF-8 are replaced rather than dropped, and the line ending is removed.
pub fn line_text(raw: &[u8]) -> (r: String)
    ensures
        r@ == strip_line_end(lossy_utf8(raw@)),
        vstd::utf8::valid_utf8(raw@) ==> r@ == strip_line_end(vstd::utf8::decode_utf8(raw@)),
{
    let text = decode_lossy(raw);
    trim_line_end(text.as_str())
}

/// The length of the first line of `b`, its line feed included.
pub open spec fn first_line_len(b: Seq<u8>) -> nat
    decreases b.len(),
{
    if b.len() == 0 {
        0
    } else if b[0] == 10u8 {
        1
    } else {
        1 + first_line_len(b.drop_first())
    }
}

pub proof fn lemma_first_line_len_bounds(b: Seq<u8>)
    ensures
        first_line_len(b) <= b.len(),
        b.len() > 0 ==> first_line_len(b) >= 1,
    decreases b.len(),
{
    if b.len() > 0 && b[0] != 10u8 {
        lemma_first_line_len_bounds(b.drop_first());
    }
}

/// The lines of `b` as a reader splits them after each line feed: every line
/// keeps its line feed, and the last need not have one.
pub open spec fn raw_lines(b: Seq<u8>) -> Seq<Seq<u8>>
    decreases b.len(),
{
    if b.len() == 0 {
        Seq::empty()
    } else {
        proof {
            lemma_first_line_len_bounds(b);
        }
        seq![b.take(first_line_len(b) as int)] + raw_lines(b.skip(first_line_len(b) as int))
    }
}

proof fn lemma_first_line_at(b: Seq<u8>, k: int)
    requires
        0 <= k < b.len(),
        b[k] == 10u8,
        forall|j: int| 0 <= j < k ==> b[j] != 10u8,
    ensures
        first_line_len(b) == k + 1,
    decreases k,
{
    if k > 0 {
        lemma_first_line_at(b.drop_first(), k - 1);
    }
}

proof fn lemma_first_line_none(b: Seq<u8>)
    requires
        forall|j: int| 0 <= j < b.len() ==> b[j] != 10u8,
    ensures
        first_line_len(b) == b.len(),
    decreases b.len(),
{
    if b.len() > 0 {
        lemma_first_line_none(b.drop_first());
    }
}

/// Every line of `source`, without its line ending, as the reader hands them out
/// one by one. Bytes that are not UTF-8 are replaced rather than dropped.
pub fn lines(source: &[u8]) -> (r: Vec<String>)
    ensures
        r@.len() == raw_lines(source@).len(),
        forall|k: int|
            0 <= k < r@.len() ==> #[trigger] r@[k]@ == strip_line_end(
                lossy_utf8(raw_lines(source@)[k]),
            ),
        forall|k: int|
            0 <= k < r@.len() && vstd::utf8::valid_utf8(raw_lines(source@)[k]) ==> #[trigger] r@[k]@
                == strip_line_end(vstd::utf8::decode_utf8(raw_lines(source@)[k])),
{
    let n = source.len();
    let mut out: Vec<String> = Vec::new();
    let ghost mut done: Seq<Seq<u8>> = Seq::empty();
    let mut i: usize = 0;
    assert(source@.skip(0) =~= source@);
    while i < n
        invariant
            0 <= i <= n,
            n == source@.len(),
            raw_lines(source@) == done + raw_lines(source@.skip(i as int)),
            out@.len() == done.len(),
            forall|k: int|
                0 <= k < out@.len() ==> #[trigger] out@[k]@ == strip_line_end(lossy_utf8(done[k])),
            forall|k: int|
                0 <= k < out@.len() && vstd::utf8::valid_utf8(done[k]) ==> #[trigger] out@[k]@
                    == strip_line_end(vstd::utf8::decode_utf8(done[k])),
        decreases n - i,
    {
        let mut j: usize = i;
        while j < n && source[j] != 10u8
            invariant
                i <= j <= n,
                n == source@.len(),
                forall|m: int| i <= m < j ==> source@[m] != 10u8,
            decreases n - j,
        {
            j = j + 1;
        }
        let end: usize = if j < n {
            j + 1
        } else {
            n
        };
        let ghost rest = source@.skip(i as int);
        proof {
            if j < n {
                lemma_first_line_at(rest, j - i);
            } else {
                lemma_first_line_none(rest);
            }
            assert(rest.skip(first_line_len(rest) as int) =~= source@.skip(end as int));
            assert(rest.take(first_line_len(rest) as int) =~= source@.subrange(i as int, end as int));
        }
        let mut chunk: Vec<u8> = Vec::new();
        let mut m: usize = i;
        while m < end
            invariant
                i <= m <= end <= n,
                n == source@.len(),
                chunk@ == source@.subrange(i as int, m as int),
            decreases end - m,
        {
            chunk.push(source[m]);
            assert(chunk@ =~= source@.subrange(i as int, m + 1));
            m = m + 1;
        }
        let text = line_text(chunk.as_slice());
        let ghost prev = out@;
        out.push(text);
        proof {
            done = done.push(source@.subrange(i as int, end as int));
            assert(raw_lines(source@) =~= done + raw_lines(source@.skip(end as int)));
            assert forall|k: int| 0 <= k < out@.len() implies #[trigger] out@[k]@ == strip_line_end(
                lossy_utf8(done[k]),
            ) by {
                if k < prev.len() {
                    assert(out@[k] == prev[k]);
                }
            }
            assert forall|k: int| 0 <= k < out@.len() && vstd::utf8::valid_utf8(done[k]) implies #[trigger] out@[k]@
                == strip_line_end(vstd::utf8::decode_utf8(done[k])) by {
                if k < prev.len() {
                    assert(out@[k] == prev[k]);
                }
            }
        }
        i = end;
    }
    assert(raw_lines(source@.skip(n as int)) =~= Seq::<Seq<u8>>::empty()) by {
        assert(source@.skip(n as int).len() == 0);
    }
    assert(done + Seq::<Seq<u8>>::empty() =~= done);
    out
}

/// Whether any step failed; a missing tool is a skip, not a failure.
pub fn any_failed(outcomes: &Vec<Outcome>) -> (r: bool)
    ensures
        r == exists|k: int| 0 <= k < outcomes@.len() && #[trigger] outcomes@[k].status is Failed,
{
    let mut i: usize = 0;
    while i < outcomes.len()
        invariant
            0 <= i <= outcomes@.len(),
            forall|k: int| 0 <= k < i ==> !(#[trigger] outcomes@[k].status is Failed),
        decreases outcomes@.len() - i,
    {
        if outcomes[i].failed() {
            return true;
        }
        i = i + 1;
    }
    false
}

} // verus!
