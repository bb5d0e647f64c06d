//! What the terminal shows: the install plan as a tree, the coloured prefix of
//! each step when output is streamed, the dry-run listing and the summary.
//!
//! Every line is laid out here as text in pieces, each with the paint it is
//! drawn in; putting the paint on the terminal is the caller's part.

use vstd::prelude::*;

use crate::detect::views;
use crate::plan::{command_text, Step};
use crate::run::{Outcome, Status};
use crate::text::{lemma_ascii_byte, lemma_ascii_len, lemma_encode_concat, lemma_spaces_len};
use crate::text::{
    byte_count, byte_len, chars_of, decimal, i32_text, space_string, spaces, trim, trim_bounds,
};

verus! {

/// Set before a step that waits for another, placing it under that step.
pub const INDENT: &'static str = "  ";

/// The colours streamed prefixes cycle through in plan order, so each step is
/// told apart at a glance. Red is left to failures.
#[derive(Debug, Clone, Copy, PartialEq, Eq, Structural)]
pub enum Hue {
    Cyan,
    Magenta,
    Green,
    Yellow,
    Blue,
}

/// How a piece of a line is drawn.
#[derive(Debug, Clone, Copy, PartialEq, Eq, Structural)]
pub enum Paint {
    Plain,
    Dim,
    Red,
    Green,
    Hue(Hue),
}

/// A run of text drawn in one paint.
#[derive(Debug, Clone, PartialEq, Eq)]
pub struct Piece {
    pub text: String,
    pub paint: Paint,
}

impl View for Piece {
    type V = (Seq<char>, Paint);

    open spec fn view(&self) -> (Seq<char>, Paint) {
        (self.text@, self.paint)
    }
}

pub open spec fn pieces_view(p: Seq<Piece>) -> Seq<(Seq<char>, Paint)> {
    p.map_values(|x: Piece| x@)
}

pub open spec fn lines_view(l: Seq<Vec<Piece>>) -> Seq<Seq<(Seq<char>, Paint)>> {
    l.map_values(|x: Vec<Piece>| pieces_view(x@))
}

fn piece(text: String, paint: Paint) -> (r: Piece)
    ensures
        r@ == (text@, paint),
{
    Piece { text, paint }
}

fn piece_of(text: &str, paint: Paint) -> (r: Piece)
    ensures
        r@ == (text@, paint),
{
    Piece { text: String::from_str(text), paint }
}

/// A step as the tree shows it: its name, and the step it waits for.
pub struct Node<'a> {
    pub name: &'a str,
    pub after: Option<&'a str>,
}

/// Where a step's line sits in the tree.
#[derive(Debug, Clone, PartialEq, Eq)]
pub struct Slot {
    pub indent: &'static str,
    /// The step name, padded so every line's timing starts in one column.
    pub name: String,
}

/// The indent of a node: one level for a step that waits for another.
pub open spec fn indent_text(n: Node) -> Seq<char> {
    if n.after is Some {
        INDENT@
    } else {
        ""@
    }
}

/// The bytes a node's indent and name take up.
pub open spec fn column(n: Node) -> nat {
    byte_len(indent_text(n)) + byte_len(n.name@)
}

/// The widest column of `nodes`; 0 when there are none.
pub open spec fn widest(nodes: Seq<Node>) -> nat
    decreases nodes.len(),
{
    if nodes.len() == 0 {
        0
    } else {
        let w = widest(nodes.drop_last());
        let c = column(nodes.last());
        if c > w {
            c
        } else {
            w
        }
    }
}

/// `s` followed by spaces up to `w` characters, as `format!("{:w$}", s)` pads it.
pub open spec fn pad_to(s: Seq<char>, w: int) -> Seq<char> {
    if w > s.len() {
        s + spaces((w - s.len()) as nat)
    } else {
        s
    }
}

proof fn lemma_widest_bounds(nodes: Seq<Node>, i: int)
    requires
        0 <= i < nodes.len(),
    ensures
        column(nodes[i]) <= widest(nodes),
    decreases nodes.len(),
{
    if i < nodes.len() - 1 {
        lemma_widest_bounds(nodes.drop_last(), i);
    }
}

/// A string of `text` padded with spaces to `width` characters.
fn pad_text(text: &str, width: usize) -> (r: String)
    ensures
        r@ == pad_to(text@, width as int),
{
    let n = text.unicode_len();
    let mut r = String::from_str(text);
    if width > n {
        let pad = space_string(width - n);
        r.append(pad.as_str());
    }
    r
}

/// Indents every step that waits for another and pads the names so the column
/// after them lines up across the whole tree.
pub fn layout(nodes: &[Node]) -> (r: Vec<Slot>)
    requires
        forall|i: int| 0 <= i < nodes@.len() ==> column(#[trigger] nodes@[i]) <= usize::MAX,
    ensures
        r@.len() == nodes@.len(),
        forall|i: int|
            0 <= i < nodes@.len() ==> {
                &&& (#[trigger] r@[i]).indent@ == indent_text(nodes@[i])
                &&& r@[i].name@ == pad_to(
                    nodes@[i].name@,
                    widest(nodes@) - byte_len(indent_text(nodes@[i])),
                )
            },
{
    let mut width: usize = 0;
    let mut i: usize = 0;
    while i < nodes.len()
        invariant
            0 <= i <= nodes@.len(),
            forall|j: int| 0 <= j < nodes@.len() ==> column(#[trigger] nodes@[j]) <= usize::MAX,
            width == widest(nodes@.take(i as int)),
        decreases nodes@.len() - i,
    {
        let node = &nodes[i];
        let indent = if node.after.is_some() {
            INDENT
        } else {
            ""
        };
        let c = byte_count(indent) + byte_count(node.name);
        assert(nodes@.take(i + 1).drop_last() =~= nodes@.take(i as int));
        if c > width {
            width = c;
        }
        i = i + 1;
    }
    assert(nodes@.take(i as int) =~= nodes@);
    let mut r: Vec<Slot> = Vec::new();
    let mut i: usize = 0;
    while i < nodes.len()
        invariant
            0 <= i <= nodes@.len(),
            width == widest(nodes@),
            r@.len() == i,
            forall|j: int|
                0 <= j < i ==> {
                    &&& (#[trigger] r@[j]).indent@ == indent_text(nodes@[j])
                    &&& r@[j].name@ == pad_to(
                        nodes@[j].name@,
                        widest(nodes@) - byte_len(indent_text(nodes@[j])),
                    )
                },
        decreases nodes@.len() - i,
    {
        let node = &nodes[i];
        let indent = if node.after.is_some() {
            INDENT
        } else {
            ""
        };
        proof {
            lemma_widest_bounds(nodes@, i as int);
        }
        let name = pad_text(node.name, width - byte_count(indent));
        r.push(Slot { indent, name });
        i = i + 1;
    }
    r
}

/// What a step that has not started yet is waiting for.
pub open spec fn waiting_text(after: Option<Seq<char>>) -> Seq<char> {
    match after {
        Some(a) => "waiting for "@ + a,
        None => "queued"@,
    }
}

/// What a step that has not started yet is waiting for: the step it runs after,
/// or its turn.
pub fn waiting(after: Option<&str>) -> (r: String)
    ensures
        r@ == waiting_text(
            match after {
                Some(a) => Some(a@),
                None => None,
            },
        ),
{
    match after {
        Some(a) => {
            let mut r = String::from_str("waiting for ");
            r.append(a);
            r
        },
        None => String::from_str("queued"),
    }
}

/// The line a step shows before it starts.
pub fn pending_line(slot: &Slot, after: Option<&str>) -> (r: Vec<Piece>)
    ensures
        pieces_view(r@) == seq![
            (slot.indent@, Paint::Plain),
            ("\u{25cc}"@, Paint::Dim),
            (" "@, Paint::Plain),
            (slot.name@, Paint::Dim),
            ("  "@, Paint::Plain),
            (
                waiting_text(
                    match after {
                        Some(a) => Some(a@),
                        None => None,
                    },
                ),
                Paint::Dim,
            ),
        ],
{
    let r = vec![
        piece_of(slot.indent, Paint::Plain),
        piece_of("\u{25cc}", Paint::Dim),
        piece_of(" ", Paint::Plain),
        piece(slot.name.clone(), Paint::Dim),
        piece_of("  ", Paint::Plain),
        piece(waiting(after), Paint::Dim),
    ];
    assert(pieces_view(r@) =~= seq![
        (slot.indent@, Paint::Plain),
        ("\u{25cc}"@, Paint::Dim),
        (" "@, Paint::Plain),
        (slot.name@, Paint::Dim),
        ("  "@, Paint::Plain),
        (
            waiting_text(
                match after {
                    Some(a) => Some(a@),
                    None => None,
                },
            ),
            Paint::Dim,
        ),
    ]);
    r
}

/// Why a failed step failed: its exit code, or that it never ran.
pub open spec fn failure_text(code: Option<i32>) -> Seq<char> {
    match code {
        Some(c) => "exit "@ + decimal(c as int),
        None => "did not run"@,
    }
}

pub fn failure_reason(code: Option<i32>) -> (r: String)
    ensures
        r@ == failure_text(code),
{
    match code {
        Some(code) => {
            let mut r = String::from_str("exit ");
            let n = i32_text(code);
            r.append(n.as_str());
            r
        },
        None => String::from_str("did not run"),
    }
}

/// The final line of a step: a mark, its name, and how it ended; `took` is the
/// time it ran, as text.
pub fn status_line(outcome: &Outcome, slot: &Slot, took: &str) -> (r: Vec<Piece>)
    ensures
        pieces_view(r@) == match outcome.status {
            Status::Installed => seq![
                (slot.indent@, Paint::Plain),
                ("\u{2714}"@, Paint::Green),
                (" "@, Paint::Plain),
                (slot.name@, Paint::Plain),
                ("  "@, Paint::Plain),
                (took@, Paint::Dim),
            ],
            Status::Skipped { reason } => seq![
                (slot.indent@, Paint::Plain),
                ("\u{25cb}"@, Paint::Dim),
                (" "@, Paint::Plain),
                (slot.name@, Paint::Dim),
                ("  "@, Paint::Plain),
                (reason@, Paint::Dim),
            ],
            Status::Failed { code } => seq![
                (slot.indent@, Paint::Plain),
                ("\u{2716}"@, Paint::Red),
                (" "@, Paint::Plain),
                (slot.name@, Paint::Plain),
                ("  "@, Paint::Plain),
                (failure_text(code), Paint::Red),
            ],
        },
{
    let (mark, name_paint, detail) = match &outcome.status {
        Status::Installed => (piece_of("\u{2714}", Paint::Green), Paint::Plain, piece_of(took, Paint::Dim)),
        Status::Skipped { reason } => (
            piece_of("\u{25cb}", Paint::Dim),
            Paint::Dim,
            piece(reason.clone(), Paint::Dim),
        ),
        Status::Failed { code } => (
            piece_of("\u{2716}", Paint::Red),
            Paint::Plain,
            piece(failure_reason(*code), Paint::Red),
        ),
    };
    let r = vec![
        piece_of(slot.indent, Paint::Plain),
        mark,
        piece_of(" ", Paint::Plain),
        piece(slot.name.clone(), name_paint),
        piece_of("  ", Paint::Plain),
        detail,
    ];
    assert(pieces_view(r@) =~= seq![r@[0]@, r@[1]@, r@[2]@, r@[3]@, r@[4]@, r@[5]@]);
    r
}

/// The steps that need attention, in the order they were planned.
#[derive(Debug, Default, PartialEq, Eq)]
pub struct Groups {
    /// Each skipped step, with why it was skipped.
    pub skipped: Vec<String>,
    /// Each failed step.
    pub failed: Vec<String>,
}

/// The skipped steps of `outs`, each as `name (reason)`.
pub open spec fn skipped_entries(outs: Seq<Outcome>) -> Seq<Seq<char>>
    decreases outs.len(),
{
    if outs.len() == 0 {
        Seq::empty()
    } else {
        let rest = skipped_entries(outs.drop_last());
        match outs.last().status {
            Status::Skipped { reason } => rest.push(
                outs.last().name@ + " ("@ + reason@ + ")"@,
            ),
            _ => rest,
        }
    }
}

/// The names of the failed steps of `outs`.
pub open spec fn failed_entries(outs: Seq<Outcome>) -> Seq<Seq<char>>
    decreases outs.len(),
{
    if outs.len() == 0 {
        Seq::empty()
    } else {
        let rest = failed_entries(outs.drop_last());
        match outs.last().status {
            Status::Failed { .. } => rest.push(outs.last().name@),
            _ => rest,
        }
    }
}

pub open spec fn strings_view(s: Seq<String>) -> Seq<Seq<char>> {
    s.map_values(|x: String| x@)
}

/// Buckets the steps that need attention, keeping the order they were planned in
/// and annotating skips with why they were skipped.
pub fn group(outcomes: &[Outcome]) -> (r: Groups)
    ensures
        strings_view(r.skipped@) == skipped_entries(outcomes@),
        strings_view(r.failed@) == failed_entries(outcomes@),
{
    let mut skipped: Vec<String> = Vec::new();
    let mut failed: Vec<String> = Vec::new();
    let mut i: usize = 0;
    while i < outcomes.len()
        invariant
            0 <= i <= outcomes@.len(),
            strings_view(skipped@) == skipped_entries(outcomes@.take(i as int)),
            strings_view(failed@) == failed_entries(outcomes@.take(i as int)),
        decreases outcomes@.len() - i,
    {
        let outcome = &outcomes[i];
        assert(outcomes@.take(i + 1).drop_last() =~= outcomes@.take(i as int));
        let ghost before_s = strings_view(skipped@);
        let ghost before_f = strings_view(failed@);
        match &outcome.status {
            Status::Installed => {},
            Status::Skipped { reason } => {
                let mut entry = String::from_str(outcome.name);
                entry.append(" (");
                entry.append(reason.as_str());
                entry.append(")");
                skipped.push(entry);
                assert(strings_view(skipped@) =~= before_s.push(
                    outcome.name@ + " ("@ + reason@ + ")"@,
                ));
            },
            Status::Failed { .. } => {
                failed.push(String::from_str(outcome.name));
                assert(strings_view(failed@) =~= before_f.push(outcome.name@));
            },
        }
        i = i + 1;
    }
    assert(outcomes@.take(i as int) =~= outcomes@);
    Groups { skipped, failed }
}

/// The items of `list`, separated by `sep`.
pub open spec fn joined_list(list: Seq<Seq<char>>, sep: Seq<char>) -> Seq<char>
    decreases list.len(),
{
    if list.len() == 0 {
        Seq::empty()
    } else if list.len() == 1 {
        list[0]
    } else {
        joined_list(list.drop_last(), sep) + sep + list.last()
    }
}

fn join(list: &Vec<String>, sep: &str) -> (r: String)
    ensures
        r@ == joined_list(strings_view(list@), sep@),
{
    let mut r = String::new();
    let mut i: usize = 0;
    while i < list.len()
        invariant
            0 <= i <= list@.len(),
            r@ == joined_list(strings_view(list@).take(i as int), sep@),
        decreases list@.len() - i,
    {
        if i > 0 {
            r.append(sep);
        }
        r.append(list[i].as_str());
        assert(strings_view(list@).take(i + 1).drop_last() =~= strings_view(list@).take(i as int));
        assert(i == 0 ==> r@ =~= strings_view(list@).take(i + 1)[0]);
        i = i + 1;
    }
    assert(strings_view(list@).take(i as int) =~= strings_view(list@));
    r
}

/// The width the summary's labels are padded to.
pub const LABEL_WIDTH: usize = 11;

/// The summary printed after a run: a blank line, the steps that were skipped
/// and those that failed when there are any, then the total wall time, given as
/// the text `total`.
pub open spec fn summary_text(outs: Seq<Outcome>, total: Seq<char>) -> Seq<
    Seq<(Seq<char>, Paint)>,
> {
    let skipped = skipped_entries(outs);
    let failed = failed_entries(outs);
    seq![Seq::empty()] + (if skipped.len() > 0 {
        seq![
            seq![
                (pad_to("skipped"@, LABEL_WIDTH as int), Paint::Dim),
                (joined_list(skipped, ", "@), Paint::Plain),
            ],
        ]
    } else {
        Seq::empty()
    }) + (if failed.len() > 0 {
        seq![
            seq![
                (pad_to("failed"@, LABEL_WIDTH as int), Paint::Red),
                (joined_list(failed, ", "@), Paint::Plain),
            ],
        ]
    } else {
        Seq::empty()
    }) + seq![seq![(pad_to("total"@, LABEL_WIDTH as int), Paint::Dim), (total, Paint::Dim)]]
}

/// The lines that report the steps that did not install, then the total wall
/// time.
pub fn summary(outcomes: &[Outcome], total: &str) -> (r: Vec<Vec<Piece>>)
    ensures
        lines_view(r@) == summary_text(outcomes@, total@),
{
    let groups = group(outcomes);
    let mut lines: Vec<Vec<Piece>> = Vec::new();
    let blank: Vec<Piece> = Vec::new();
    assert(pieces_view(blank@) =~= Seq::empty());
    lines.push(blank);
    let ghost l0: Seq<Seq<(Seq<char>, Paint)>> = seq![Seq::empty()];
    assert(lines_view(lines@) =~= l0);
    let ghost l1 = l0 + (if skipped_entries(outcomes@).len() > 0 {
        seq![
            seq![
                (pad_to("skipped"@, LABEL_WIDTH as int), Paint::Dim),
                (joined_list(skipped_entries(outcomes@), ", "@), Paint::Plain),
            ],
        ]
    } else {
        Seq::empty()
    });
    if groups.skipped.len() > 0 {
        let line = vec![
            piece(pad_text("skipped", LABEL_WIDTH), Paint::Dim),
            piece(join(&groups.skipped, ", "), Paint::Plain),
        ];
        let ghost lv = pieces_view(line@);
        assert(lv =~= seq![
            (pad_to("skipped"@, LABEL_WIDTH as int), Paint::Dim),
            (joined_list(skipped_entries(outcomes@), ", "@), Paint::Plain),
        ]);
        let ghost before = lines_view(lines@);
        lines.push(line);
        assert(lines_view(lines@) =~= before.push(lv));
    }
    assert(lines_view(lines@) =~= l1);
    let ghost l2 = l1 + (if failed_entries(outcomes@).len() > 0 {
        seq![
            seq![
                (pad_to("failed"@, LABEL_WIDTH as int), Paint::Red),
                (joined_list(failed_entries(outcomes@), ", "@), Paint::Plain),
            ],
        ]
    } else {
        Seq::empty()
    });
    if groups.failed.len() > 0 {
        let line = vec![
            piece(pad_text("failed", LABEL_WIDTH), Paint::Red),
            piece(join(&groups.failed, ", "), Paint::Plain),
        ];
        let ghost lv = pieces_view(line@);
        assert(lv =~= seq![
            (pad_to("failed"@, LABEL_WIDTH as int), Paint::Red),
            (joined_list(failed_entries(outcomes@), ", "@), Paint::Plain),
        ]);
        let ghost before = lines_view(lines@);
        lines.push(line);
        assert(lines_view(lines@) =~= before.push(lv));
    }
    assert(lines_view(lines@) =~= l2);
    let line = vec![
        piece(pad_text("total", LABEL_WIDTH), Paint::Dim),
        piece_of(total, Paint::Dim),
    ];
    let ghost lv = pieces_view(line@);
    assert(lv =~= seq![(pad_to("total"@, LABEL_WIDTH as int), Paint::Dim), (total@, Paint::Dim)]);
    let ghost before = lines_view(lines@);
    lines.push(line);
    assert(lines_view(lines@) =~= before.push(lv));
    assert(lines_view(lines@) =~= summary_text(outcomes@, total@));
    lines
}

/// The captured output of each of `outs` that wrote any, under a heading.
pub open spec fn details_text(outs: Seq<&Outcome>) -> Seq<Seq<(Seq<char>, Paint)>>
    decreases outs.len(),
{
    if outs.len() == 0 {
        Seq::empty()
    } else {
        let rest = details_text(outs.drop_last());
        let o = outs.last();
        if o.output@.len() == 0 {
            rest
        } else {
            rest + seq![
                Seq::empty(),
                seq![("\u{2500}\u{2500} "@ + o.name@ + " \u{2500}\u{2500}"@, Paint::Dim)],
                seq![(o.output@, Paint::Plain)],
            ]
        }
    }
}

/// The lines that show the captured output of the given steps, under a heading
/// each; a step that wrote nothing is left out.
pub fn details(outcomes: &Vec<&Outcome>) -> (r: Vec<Vec<Piece>>)
    ensures
        lines_view(r@) == details_text(outcomes@),
{
    let mut lines: Vec<Vec<Piece>> = Vec::new();
    let mut i: usize = 0;
    while i < outcomes.len()
        invariant
            0 <= i <= outcomes@.len(),
            lines_view(lines@) == details_text(outcomes@.take(i as int)),
        decreases outcomes@.len() - i,
    {
        let outcome = outcomes[i];
        assert(outcomes@.take(i + 1).drop_last() =~= outcomes@.take(i as int));
        if outcome.output.as_str().unicode_len() != 0 {
            let ghost before = lines_view(lines@);
            let mut heading = String::from_str("\u{2500}\u{2500} ");
            heading.append(outcome.name);
            heading.append(" \u{2500}\u{2500}");
            let l1: Vec<Piece> = Vec::new();
            let l2 = vec![piece(heading, Paint::Dim)];
            let l3 = vec![piece(outcome.output.clone(), Paint::Plain)];
            let ghost v2 = pieces_view(l2@);
            let ghost v3 = pieces_view(l3@);
            assert(pieces_view(l1@) =~= Seq::empty());
            lines.push(l1);
            lines.push(l2);
            lines.push(l3);
            assert(lines_view(lines@) =~= before + seq![Seq::empty(), v2, v3]);
            assert(v2 =~= seq![("\u{2500}\u{2500} "@ + outcome.name@ + " \u{2500}\u{2500}"@, Paint::Dim)]);
            assert(v3 =~= seq![(outcome.output@, Paint::Plain)]);
        }
        i = i + 1;
    }
    assert(outcomes@.take(i as int) =~= outcomes@);
    lines
}

/// The captured output of each failed step of `outs` that wrote any, under a
/// heading, in plan order.
pub open spec fn failed_details_text(outs: Seq<Outcome>) -> Seq<Seq<(Seq<char>, Paint)>>
    decreases outs.len(),
{
    if outs.len() == 0 {
        Seq::empty()
    } else {
        let rest = failed_details_text(outs.drop_last());
        let o = outs.last();
        if o.status is Failed && o.output@.len() != 0 {
            rest + seq![
                Seq::empty(),
                seq![("\u{2500}\u{2500} "@ + o.name@ + " \u{2500}\u{2500}"@, Paint::Dim)],
                seq![(o.output@, Paint::Plain)],
            ]
        } else {
            rest
        }
    }
}

/// What is shown of the steps' own output once a run is over: with output held
/// back, that of each step that failed; when it was streamed, nothing more.
pub fn failure_details(outcomes: &[Outcome], log: bool) -> (r: Vec<Vec<Piece>>)
    ensures
        lines_view(r@) == (if log { Seq::empty() } else { failed_details_text(outcomes@) }),
{
    if log {
        return Vec::new();
    }
    let mut failed: Vec<&Outcome> = Vec::new();
    let mut i: usize = 0;
    while i < outcomes.len()
        invariant
            0 <= i <= outcomes@.len(),
            details_text(failed@) == failed_details_text(outcomes@.take(i as int)),
        decreases outcomes@.len() - i,
    {
        let outcome = &outcomes[i];
        assert(outcomes@.take(i + 1).drop_last() =~= outcomes@.take(i as int));
        assert(outcomes@.take(i + 1).last() == outcomes@[i as int]);
        if outcome.failed() {
            let ghost before = failed@;
            failed.push(outcome);
            assert(failed@.drop_last() =~= before);
        }
        i = i + 1;
    }
    assert(outcomes@.take(i as int) =~= outcomes@);
    details(&failed)
}

/// The line that announces a step's command when its output is streamed.
pub fn command_echo(step: &Step) -> (r: String)
    ensures
        r@ == "$ "@ + command_text(step.program@, views(step.args@)),
{
    let mut r = String::from_str("$ ");
    let command = step.command_line();
    r.append(command.as_str());
    r
}

/// The line that tells, when output is streamed, why a step was skipped.
pub fn skip_notice(reason: &str) -> (r: String)
    ensures
        r@ == "skipped: "@ + reason@,
{
    let mut r = String::from_str("skipped: ");
    r.append(reason);
    r
}

/// The prefix colours, in the order steps take them.
pub open spec fn hues() -> Seq<Hue> {
    seq![Hue::Cyan, Hue::Magenta, Hue::Green, Hue::Yellow, Hue::Blue]
}

/// The colour of the step at `index` in plan order, the same in every mode.
pub fn colour(index: usize) -> (r: Hue)
    ensures
        r == hues()[index as int % 5],
{
    let k = index % 5;
    if k == 0 {
        Hue::Cyan
    } else if k == 1 {
        Hue::Magenta
    } else if k == 2 {
        Hue::Green
    } else if k == 3 {
        Hue::Yellow
    } else {
        Hue::Blue
    }
}

/// The spaces that follow `text` so that it takes up `width` bytes.
pub open spec fn padding_text(text: Seq<char>, width: int) -> Seq<char> {
    if width > byte_len(text) {
        spaces((width - byte_len(text)) as nat)
    } else {
        Seq::empty()
    }
}

pub fn padding(text: &str, width: usize) -> (r: String)
    ensures
        r@ == padding_text(text@, width as int),
{
    let n = byte_count(text);
    if width > n {
        space_string(width - n)
    } else {
        String::new()
    }
}

/// A streamed prefix: the step name in brackets.
pub open spec fn label_text(name: Seq<char>) -> Seq<char> {
    "["@ + name + "]"@
}

/// Splits a prefix into its label and the padding that aligns it, keeping the
/// trailing spaces outside the colour escape.
pub fn prefix_parts(name: &str, width: usize) -> (r: (String, String))
    requires
        width <= usize::MAX - 3,
    ensures
        r.0@ == label_text(name@),
        r.1@ == padding_text(label_text(name@), width + 3),
{
    let mut label = String::from_str("[");
    label.append(name);
    label.append("]");
    let spaces = padding(label.as_str(), width + 3);
    (label, spaces)
}

/// The number of bytes of the longest of `texts`; 0 when there are none.
pub open spec fn widest_text(texts: Seq<Seq<char>>) -> nat
    decreases texts.len(),
{
    if texts.len() == 0 {
        0
    } else {
        let w = widest_text(texts.drop_last());
        let c = byte_len(texts.last());
        if c > w {
            c
        } else {
            w
        }
    }
}

proof fn lemma_widest_text_bound(texts: Seq<Seq<char>>, k: nat)
    requires
        forall|i: int| 0 <= i < texts.len() ==> byte_len(#[trigger] texts[i]) <= k,
    ensures
        widest_text(texts) <= k,
    decreases texts.len(),
{
    if texts.len() > 0 {
        lemma_widest_text_bound(texts.drop_last(), k);
    }
}

fn widest_of(texts: &[&str]) -> (r: usize)
    ensures
        r == widest_text(crate::detect::views(texts@)),
{
    let ghost v = crate::detect::views(texts@);
    let mut w: usize = 0;
    let mut i: usize = 0;
    while i < texts.len()
        invariant
            0 <= i <= texts@.len(),
            v == crate::detect::views(texts@),
            w == widest_text(v.take(i as int)),
        decreases texts@.len() - i,
    {
        assert(v.take(i + 1).drop_last() =~= v.take(i as int));
        let c = byte_count(texts[i]);
        if c > w {
            w = c;
        }
        i = i + 1;
    }
    assert(v.take(i as int) =~= v);
    w
}

/// The streamed prefix of the step at `index` among `names`.
pub open spec fn prefix_text(names: Seq<Seq<char>>, index: int) -> Seq<(Seq<char>, Paint)> {
    seq![
        (label_text(names[index]), Paint::Hue(hues()[index % 5])),
        (padding_text(label_text(names[index]), widest_text(names) + 3int), Paint::Plain),
    ]
}

/// Builds the `[name]` prefix each streamed line is written behind: coloured per
/// step, and padded so the output of every step lines up in one column.
pub fn prefixes(names: &[&str]) -> (r: Vec<Vec<Piece>>)
    requires
        forall|i: int| 0 <= i < names@.len() ==> byte_len(#[trigger] names@[i]@) <= usize::MAX - 3,
    ensures
        r@.len() == names@.len(),
        forall|i: int|
            0 <= i < names@.len() ==> pieces_view((#[trigger] r@[i])@) == prefix_text(
                crate::detect::views(names@),
                i,
            ),
{
    let ghost v = crate::detect::views(names@);
    let width = widest_of(names);
    proof {
        assert forall|i: int| 0 <= i < v.len() implies byte_len(#[trigger] v[i]) <= usize::MAX
            - 3 by {
            assert(v[i] == names@[i]@);
        }
        lemma_widest_text_bound(v, (usize::MAX - 3) as nat);
    }
    let mut r: Vec<Vec<Piece>> = Vec::new();
    let mut i: usize = 0;
    while i < names.len()
        invariant
            0 <= i <= names@.len(),
            v == crate::detect::views(names@),
            width == widest_text(v),
            width <= usize::MAX - 3,
            r@.len() == i,
            forall|j: int| 0 <= j < i ==> pieces_view((#[trigger] r@[j])@) == prefix_text(v, j),
        decreases names@.len() - i,
    {
        let (label, pad) = prefix_parts(names[i], width);
        let line = vec![piece(label, Paint::Hue(colour(i))), piece(pad, Paint::Plain)];
        assert(pieces_view(line@) =~= prefix_text(v, i as int));
        r.push(line);
        i = i + 1;
    }
    r
}

/// A row of the dry-run listing.
pub struct PlanRow<'a> {
    pub name: &'a str,
    pub evidence: &'a str,
    pub command: String,
}

/// The line of the dry-run listing for the row at `index`, given the widest name
/// and evidence of all rows.
pub open spec fn listing_line(
    name: Seq<char>,
    evidence: Seq<char>,
    command: Seq<char>,
    index: int,
    name_width: int,
    evidence_width: int,
) -> Seq<(Seq<char>, Paint)> {
    seq![
        (name, Paint::Hue(hues()[index % 5])),
        (padding_text(name, name_width), Paint::Plain),
        ("  "@, Paint::Plain),
        (evidence, Paint::Dim),
        (padding_text(evidence, evidence_width), Paint::Plain),
        ("  "@, Paint::Plain),
        ("$"@, Paint::Dim),
        (" "@, Paint::Plain),
        (command, Paint::Plain),
    ]
}

pub open spec fn row_names(rows: Seq<PlanRow>) -> Seq<Seq<char>> {
    rows.map_values(|r: PlanRow| r.name@)
}

pub open spec fn row_evidence(rows: Seq<PlanRow>) -> Seq<Seq<char>> {
    rows.map_values(|r: PlanRow| r.evidence@)
}

/// Formats the dry-run listing, giving each toolchain the colour its streamed
/// output is prefixed with so a step looks the same in both modes.
pub fn plan_listing(rows: &[PlanRow]) -> (r: Vec<Vec<Piece>>)
    ensures
        r@.len() == rows@.len(),
        forall|i: int|
            0 <= i < rows@.len() ==> pieces_view((#[trigger] r@[i])@) == listing_line(
                rows@[i].name@,
                rows@[i].evidence@,
                rows@[i].command@,
                i,
                widest_text(row_names(rows@)) as int,
                widest_text(row_evidence(rows@)) as int,
            ),
{
    let ghost names = row_names(rows@);
    let ghost evidence = row_evidence(rows@);
    let mut name_width: usize = 0;
    let mut evidence_width: usize = 0;
    let mut i: usize = 0;
    while i < rows.len()
        invariant
            0 <= i <= rows@.len(),
            names == row_names(rows@),
            evidence == row_evidence(rows@),
            name_width == widest_text(names.take(i as int)),
            evidence_width == widest_text(evidence.take(i as int)),
        decreases rows@.len() - i,
    {
        assert(names.take(i + 1).drop_last() =~= names.take(i as int));
        assert(evidence.take(i + 1).drop_last() =~= evidence.take(i as int));
        let a = byte_count(rows[i].name);
        let b = byte_count(rows[i].evidence);
        if a > name_width {
            name_width = a;
        }
        if b > evidence_width {
            evidence_width = b;
        }
        i = i + 1;
    }
    assert(names.take(i as int) =~= names);
    assert(evidence.take(i as int) =~= evidence);
    let mut r: Vec<Vec<Piece>> = Vec::new();
    let mut i: usize = 0;
    while i < rows.len()
        invariant
            0 <= i <= rows@.len(),
            names == row_names(rows@),
            evidence == row_evidence(rows@),
            name_width == widest_text(names),
            evidence_width == widest_text(evidence),
            r@.len() == i,
            forall|j: int|
                0 <= j < i ==> pieces_view((#[trigger] r@[j])@) == listing_line(
                    rows@[j].name@,
                    rows@[j].evidence@,
                    rows@[j].command@,
                    j,
                    name_width as int,
                    evidence_width as int,
                ),
        decreases rows@.len() - i,
    {
        let row = &rows[i];
        let hue = colour(i);
        let line = vec![
            piece_of(row.name, Paint::Hue(hue)),
            piece(padding(row.name, name_width), Paint::Plain),
            piece_of("  ", Paint::Plain),
            piece_of(row.evidence, Paint::Dim),
            piece(padding(row.evidence, evidence_width), Paint::Plain),
            piece_of("  ", Paint::Plain),
            piece_of("$", Paint::Dim),
            piece_of(" ", Paint::Plain),
            piece(row.command.clone(), Paint::Plain),
        ];
        assert(pieces_view(line@) =~= listing_line(
            row.name@,
            row.evidence@,
            row.command@,
            i as int,
            name_width as int,
            evidence_width as int,
        ));
        r.push(line);
        i = i + 1;
    }
    r
}

/// What `console::strip_ansi_codes` leaves of `s`: the text with its ANSI escape
/// sequences removed.
pub uninterp spec fn ansi_stripped(s: Seq<char>) -> Seq<char>;

/// Calls `console::strip_ansi_codes`. Its source hands text back unchanged when
/// it holds neither an escape (U+001B) nor a CSI (U+009B) character, which is
/// stated; which sequences it removes otherwise is named by `ansi_stripped`.
#[verifier::external_body]
fn strip_ansi_codes(s: &str) -> (r: String)
    ensures
        r@ == ansi_stripped(s@),
        !s@.contains('\u{1b}') && !s@.contains('\u{9b}') ==> r@ == s@,
{
    console::strip_ansi_codes(s).into_owned()
}

/// Where the frame of `s` that ends at `end` starts: just after the last
/// carriage return before `end`, or at 0.
pub open spec fn frame_start(s: Seq<char>, end: int) -> int
    decreases end,
{
    if end <= 0 {
        0
    } else if s[end - 1] == '\r' {
        end
    } else {
        frame_start(s, end - 1)
    }
}

pub proof fn lemma_frame_start_bounds(s: Seq<char>, end: int)
    ensures
        0 <= frame_start(s, end),
        end >= 0 ==> frame_start(s, end) <= end,
    decreases end,
{
    if end > 0 && s[end - 1] != '\r' {
        lemma_frame_start_bounds(s, end - 1);
    }
}

/// The last frame of `s[..end]` that is not blank, trimmed. A line that redraws
/// itself writes one frame after another, separated by carriage returns.
pub open spec fn last_visible(s: Seq<char>, end: int) -> Option<Seq<char>>
    decreases end,
{
    if end < 0 {
        None
    } else {
        let st = frame_start(s, end);
        let t = trim(s.subrange(st, end));
        if t.len() > 0 {
            Some(t)
        } else if st <= 0 {
            None
        } else {
            proof {
                lemma_frame_start_bounds(s, end);
            }
            last_visible(s, st - 1)
        }
    }
}

/// What a line of output shows beside a running step's spinner.
pub open spec fn activity_text(output: Seq<char>) -> Option<Seq<char>> {
    last_visible(ansi_stripped(output), ansi_stripped(output).len() as int)
}

/// The last frame of `text` that is not blank, trimmed: a line that redraws
/// itself writes one frame after another, separated by carriage returns.
pub fn last_visible_frame(text: &str) -> (r: Option<String>)
    ensures
        match r {
            Some(t) => last_visible(text@, text@.len() as int) == Some(t@),
            None => last_visible(text@, text@.len() as int) is None,
        },
{
    let v = chars_of(text);
    let ghost s = v@;
    let mut end: usize = v.len();
    loop
        invariant
            s == v@,
            s == text@,
            end <= v.len(),
            last_visible(s, s.len() as int) == last_visible(s, end as int),
        decreases end,
    {
        let mut st: usize = end;
        while st > 0 && v[st - 1] != '\r'
            invariant
                st <= end <= v.len(),
                s == v@,
                frame_start(s, end as int) == frame_start(s, st as int),
            decreases st,
        {
            st = st - 1;
        }
        assert(frame_start(s, st as int) == st);
        let (a, b) = trim_bounds(&v, st, end);
        if a < b {
            return Some(String::from_str(text.substring_char(a, b)));
        }
        if st == 0 {
            return None;
        }
        end = st - 1;
    }
}

/// Reduces a line of a step's output to what is worth showing beside its
/// spinner: colour codes removed, and only the last frame of a line that
/// redraws itself with carriage returns. Blank lines yield nothing. Text
/// without escape characters is read as it stands.
pub fn activity(output: &str) -> (r: Option<String>)
    ensures
        match r {
            Some(t) => activity_text(output@) == Some(t@),
            None => activity_text(output@) is None,
        },
        !output@.contains('\u{1b}') && !output@.contains('\u{9b}') ==> match r {
            Some(t) => last_visible(output@, output@.len() as int) == Some(t@),
            None => last_visible(output@, output@.len() as int) is None,
        },
{
    let plain = strip_ansi_codes(output);
    last_visible_frame(plain.as_str())
}

proof fn lemma_widest_text_member(texts: Seq<Seq<char>>, i: int)
    requires
        0 <= i < texts.len(),
    ensures
        byte_len(texts[i]) <= widest_text(texts),
    decreases texts.len(),
{
    if i < texts.len() - 1 {
        assert(texts.drop_last()[i] == texts[i]);
        lemma_widest_text_member(texts.drop_last(), i);
    }
}

/// Text padded to a width at least as wide as it takes up exactly that width.
proof fn lemma_padding_fills(text: Seq<char>, width: int)
    requires
        byte_len(text) <= width,
    ensures
        byte_len(text) + byte_len(padding_text(text, width)) == width,
{
    if width > byte_len(text) {
        lemma_spaces_len((width - byte_len(text)) as nat);
    } else {
        assert(vstd::utf8::encode_utf8(Seq::<char>::empty()) =~= Seq::<u8>::empty());
    }
}

/// Every streamed prefix, label and padding together, takes up the same number
/// of bytes: three more than the longest name, so all output starts in one
/// column.
pub proof fn lemma_prefixes_aligned(names: Seq<Seq<char>>)
    ensures
        forall|i: int|
            0 <= i < names.len() ==> byte_len((#[trigger] prefix_text(names, i))[0].0) + byte_len(
                prefix_text(names, i)[1].0,
            ) == widest_text(names) + 3,
{
    assert forall|i: int| 0 <= i < names.len() implies byte_len(
        (#[trigger] prefix_text(names, i))[0].0,
    ) + byte_len(prefix_text(names, i)[1].0) == widest_text(names) + 3 by {
        lemma_widest_text_member(names, i);
        let label = label_text(names[i]);
        reveal_strlit("[");
        reveal_strlit("]");
        lemma_ascii_byte('[');
        lemma_ascii_byte(']');
        assert("["@ =~= seq!['[']);
        assert("]"@ =~= seq![']']);
        lemma_encode_concat("["@, names[i]);
        lemma_encode_concat("["@ + names[i], "]"@);
        assert(byte_len(label) == byte_len(names[i]) + 2);
        lemma_padding_fills(label, widest_text(names) + 3int);
    }
}

/// In the dry-run listing every name with its padding takes up the width of the
/// longest name, and every piece of evidence that of the longest evidence.
pub proof fn lemma_listing_aligned(rows: Seq<PlanRow>)
    ensures
        forall|i: int|
            0 <= i < rows.len() ==> {
                let l = #[trigger] listing_line(
                    rows[i].name@,
                    rows[i].evidence@,
                    rows[i].command@,
                    i,
                    widest_text(row_names(rows)) as int,
                    widest_text(row_evidence(rows)) as int,
                );
                &&& byte_len(l[0].0) + byte_len(l[1].0) == widest_text(row_names(rows))
                &&& byte_len(l[3].0) + byte_len(l[4].0) == widest_text(row_evidence(rows))
            },
{
    assert forall|i: int| 0 <= i < rows.len() implies {
        let l = #[trigger] listing_line(
            rows[i].name@,
            rows[i].evidence@,
            rows[i].command@,
            i,
            widest_text(row_names(rows)) as int,
            widest_text(row_evidence(rows)) as int,
        );
        &&& byte_len(l[0].0) + byte_len(l[1].0) == widest_text(row_names(rows))
        &&& byte_len(l[3].0) + byte_len(l[4].0) == widest_text(row_evidence(rows))
    } by {
        assert(row_names(rows)[i] == rows[i].name@);
        assert(row_evidence(rows)[i] == rows[i].evidence@);
        lemma_widest_text_member(row_names(rows), i);
        lemma_widest_text_member(row_evidence(rows), i);
        lemma_padding_fills(rows[i].name@, widest_text(row_names(rows)) as int);
        lemma_padding_fills(rows[i].evidence@, widest_text(row_evidence(rows)) as int);
    }
}

/// With plain ASCII names, every line of the tree takes up the same width up to
/// its name's end: each name is padded with spaces to the widest indent and name
/// of the whole tree.
pub proof fn lemma_layout_aligned(nodes: Seq<Node>)
    requires
        forall|i: int, j: int|
            0 <= i < nodes.len() && 0 <= j < nodes[i].name@.len() ==> (#[trigger] nodes[i].name@[j]
                as u32) < 0x80,
    ensures
        forall|i: int|
            0 <= i < nodes.len() ==> {
                let n = #[trigger] nodes[i];
                let w = widest(nodes) - byte_len(indent_text(n));
                &&& byte_len(indent_text(n)) + n.name@.len() <= widest(nodes)
                &&& pad_to(n.name@, w) == n.name@ + spaces((w - n.name@.len()) as nat)
                &&& byte_len(indent_text(n)) + byte_len(pad_to(n.name@, w)) == widest(nodes)
            },
{
    assert forall|i: int| 0 <= i < nodes.len() implies {
        let n = #[trigger] nodes[i];
        let w = widest(nodes) - byte_len(indent_text(n));
        &&& byte_len(indent_text(n)) + n.name@.len() <= widest(nodes)
        &&& pad_to(n.name@, w) == n.name@ + spaces((w - n.name@.len()) as nat)
        &&& byte_len(indent_text(n)) + byte_len(pad_to(n.name@, w)) == widest(nodes)
    } by {
        let n = nodes[i];
        let name = n.name@;
        let w = widest(nodes) - byte_len(indent_text(n));
        assert forall|j: int| 0 <= j < name.len() implies (#[trigger] name[j] as u32) < 0x80 by {
            assert(nodes[i].name@[j] == name[j]);
        }
        lemma_ascii_len(name);
        lemma_widest_bounds(nodes, i);
        let pad = spaces((w - name.len()) as nat);
        if w == name.len() {
            assert(pad =~= Seq::<char>::empty());
            assert(name + pad =~= name);
        }
        lemma_encode_concat(name, pad);
        lemma_spaces_len((w - name.len()) as nat);
    }
}

/// A step is drawn in the same colour in the dry-run listing as in front of its
/// streamed output: both take the colour of its place in the plan.
pub proof fn lemma_same_colour_in_both_modes(
    name: Seq<char>,
    evidence: Seq<char>,
    command: Seq<char>,
    names: Seq<Seq<char>>,
    index: int,
    name_width: int,
    evidence_width: int,
)
    requires
        0 <= index < names.len(),
    ensures
        listing_line(name, evidence, command, index, name_width, evidence_width)[0].1
            == prefix_text(names, index)[0].1,
        prefix_text(names, index)[0].1 == Paint::Hue(hues()[index % 5]),
{
}

/// The summary's failed entries are the names of exactly the steps that failed,
/// whatever their exit code (or none, when the command could not be started),
/// in the order they were planned; its skipped entries are exactly the skipped
/// steps, each with its reason.
pub proof fn lemma_group_keeps_every_step_that_needs_attention(outs: Seq<Outcome>)
    ensures
        failed_entries(outs) == outs.filter(|o: Outcome| o.status is Failed).map_values(
            |o: Outcome| o.name@,
        ),
        skipped_entries(outs) == outs.filter(|o: Outcome| o.status is Skipped).map_values(
            |o: Outcome| o.name@ + " ("@ + o.status->reason@ + ")"@,
        ),
    decreases outs.len(),
{
    reveal(Seq::filter);
    let pf = |o: Outcome| o.status is Failed;
    let ps = |o: Outcome| o.status is Skipped;
    if outs.len() == 0 {
        assert(outs.filter(pf) =~= Seq::<Outcome>::empty());
        assert(outs.filter(ps) =~= Seq::<Outcome>::empty());
    } else {
        lemma_group_keeps_every_step_that_needs_attention(outs.drop_last());
        assert(outs.filter(pf).map_values(|o: Outcome| o.name@) =~= failed_entries(outs));
        assert(outs.filter(ps).map_values(
            |o: Outcome| o.name@ + " ("@ + o.status->reason@ + ")"@,
        ) =~= skipped_entries(outs));
    }
}

/// What is shown after a run is made step by step: the details of two runs of
/// steps one after the other are those of the first, then those of the second,
/// so no failed step's output hides another's.
pub proof fn lemma_failed_details_concatenate(a: Seq<Outcome>, b: Seq<Outcome>)
    ensures
        failed_details_text(a + b) == failed_details_text(a) + failed_details_text(b),
    decreases b.len(),
{
    if b.len() == 0 {
        assert(a + b =~= a);
        assert(failed_details_text(a) + failed_details_text(b) =~= failed_details_text(a));
    } else {
        assert((a + b).drop_last() =~= a + b.drop_last());
        assert((a + b).last() == b.last());
        lemma_failed_details_concatenate(a, b.drop_last());
        assert(failed_details_text(a + b) =~= failed_details_text(a) + failed_details_text(b));
    }
}

/// The details of steps one after the other are those of each in turn: every
/// step that wrote output keeps its place, whatever follows it.
pub proof fn lemma_details_concatenate(a: Seq<&Outcome>, b: Seq<&Outcome>)
    ensures
        details_text(a + b) == details_text(a) + details_text(b),
    decreases b.len(),
{
    if b.len() == 0 {
        assert(a + b =~= a);
        assert(details_text(a) + details_text(b) =~= details_text(a));
    } else {
        assert((a + b).drop_last() =~= a + b.drop_last());
        assert((a + b).last() == b.last());
        lemma_details_concatenate(a, b.drop_last());
        assert(details_text(a + b) =~= details_text(a) + details_text(b));
    }
}

/// One step shows its output, under a heading with its name, exactly when it
/// failed and wrote something.
pub proof fn lemma_failed_details_of_one_step(o: Outcome)
    ensures
        failed_details_text(seq![o]) == if o.status is Failed && o.output@.len() != 0 {
            seq![
                Seq::empty(),
                seq![("\u{2500}\u{2500} "@ + o.name@ + " \u{2500}\u{2500}"@, Paint::Dim)],
                seq![(o.output@, Paint::Plain)],
            ]
        } else {
            Seq::empty()
        },
{
    assert(seq![o].drop_last() =~= Seq::<Outcome>::empty());
    assert(seq![o].last() == o);
    assert(failed_details_text(Seq::<Outcome>::empty()) =~= Seq::empty());
    assert(Seq::<Seq<(Seq<char>, Paint)>>::empty() + seq![
        Seq::empty(),
        seq![("\u{2500}\u{2500} "@ + o.name@ + " \u{2500}\u{2500}"@, Paint::Dim)],
        seq![(o.output@, Paint::Plain)],
    ] =~= seq![
        Seq::empty(),
        seq![("\u{2500}\u{2500} "@ + o.name@ + " \u{2500}\u{2500}"@, Paint::Dim)],
        seq![(o.output@, Paint::Plain)],
    ]);
}

} // verus!
