use vstd::prelude::*;
use crate::process::words;
use crate::bytes::{
    joined, lemma_joined_push, lemma_joined_unique, append, bytes_eq, copy_bytes, decimal, digit_run, digits_value, lemma_decimal, push_decimal, read_number,
    starts_with, tail,
};

verus! {

/// The role of one line inside a hunk body.
#[derive(Clone, Copy, Debug, PartialEq, Eq, Structural)]
pub enum Origin {
    Context,
    Addition,
    Deletion,
}

/// One body line of a hunk: its origin and its text, without the marker
/// and without the line terminator.
#[derive(Clone, Debug)]
pub struct DiffLine {
    pub origin: Origin,
    pub text: Vec<u8>,
}

/// One contiguous changed region of a file.
#[derive(Clone, Debug)]
pub struct Hunk {
    pub old_file: Vec<u8>,
    pub new_file: Vec<u8>,
    pub old_start: u64,
    pub old_count: u64,
    pub new_start: u64,
    pub new_count: u64,
    pub lines: Vec<DiffLine>,
}

/// What happened to a file.
#[derive(Clone, Copy, Debug, PartialEq, Eq, Structural)]
pub enum DeltaStatus {
    Added,
    Modified,
    Deleted,
    Renamed,
}

/// The changes made to one file.
#[derive(Clone, Debug)]
pub struct Delta {
    pub old_file: Vec<u8>,
    pub new_file: Vec<u8>,
    pub status: DeltaStatus,
    pub hunks: Vec<Hunk>,
}

pub open spec fn marker(o: Origin) -> u8 {
    match o {
        Origin::Context => 32u8,
        Origin::Addition => 43u8,
        Origin::Deletion => 45u8,
    }
}

/// Number of lines of the old side: context and deleted lines.
pub open spec fn old_side_len(lines: Seq<DiffLine>) -> nat
    decreases lines.len(),
{
    if lines.len() == 0 {
        0
    } else {
        old_side_len(lines.drop_last()) + if lines.last().origin != Origin::Addition {
            1nat
        } else {
            0nat
        }
    }
}

/// Number of lines of the new side: context and added lines.
pub open spec fn new_side_len(lines: Seq<DiffLine>) -> nat
    decreases lines.len(),
{
    if lines.len() == 0 {
        0
    } else {
        new_side_len(lines.drop_last()) + if lines.last().origin != Origin::Deletion {
            1nat
        } else {
            0nat
        }
    }
}

pub open spec fn line_bytes(l: DiffLine) -> Seq<u8> {
    seq![marker(l.origin)] + l.text@ + seq![10u8]
}

/// The body of a hunk: each line as its marker, its text and a newline.
pub open spec fn body_bytes(lines: Seq<DiffLine>) -> Seq<u8>
    decreases lines.len(),
{
    if lines.len() == 0 {
        Seq::empty()
    } else {
        body_bytes(lines.drop_last()) + line_bytes(lines.last())
    }
}

/// `--- a/<old>\n+++ b/<new>\n`
pub open spec fn file_header(old_file: Seq<u8>, new_file: Seq<u8>) -> Seq<u8> {
    seq![45u8, 45, 45, 32, 97, 47] + old_file + seq![10u8] + seq![43u8, 43, 43, 32, 98, 47]
        + new_file + seq![10u8]
}

/// `@@ -<old_start>,<old_count> +<new_start>,<new_count> @@`
pub open spec fn hunk_line(old_start: nat, old_count: nat, new_start: nat, new_count: nat) -> Seq<u8> {
    seq![64u8, 64, 32, 45] + decimal(old_start) + seq![44u8] + decimal(old_count) + seq![32u8, 43]
        + decimal(new_start) + seq![44u8] + decimal(new_count) + seq![32u8, 64, 64]
}

/// The hunk header line with its newline.
pub open spec fn hunk_header(old_start: nat, old_count: nat, new_start: nat, new_count: nat) -> Seq<u8> {
    hunk_line(old_start, old_count, new_start, new_count) + seq![10u8]
}

/// Whether `line` is a header line as written for some four numbers.
pub open spec fn is_hunk_line(line: Seq<u8>) -> bool {
    exists|t: (u64, u64, u64, u64)| line == hunk_line(t.0 as nat, t.1 as nat, t.2 as nat, t.3 as nat)
}

/// Four numbers for which `line` is the header line.
pub open spec fn hunk_line_numbers(line: Seq<u8>) -> (u64, u64, u64, u64) {
    choose|t: (u64, u64, u64, u64)| line == hunk_line(t.0 as nat, t.1 as nat, t.2 as nat, t.3 as nat)
}

/// Where each part of a header line stands.
proof fn lemma_hunk_line_layout(a: u64, b: u64, c: u64, d: u64)
    ensures ({
        let l = hunk_line(a as nat, b as nat, c as nat, d as nat);
        let end_a: int = 4 + decimal(a as nat).len() as int;
        let end_b: int = end_a + 1 + decimal(b as nat).len();
        let end_c: int = end_b + 2 + decimal(c as nat).len();
        let end_d: int = end_c + 1 + decimal(d as nat).len();
        &&& l.len() == end_d + 3
        &&& l.subrange(0, 4) == seq![64u8, 64, 32, 45]
        &&& digit_run(l, 4, end_a) && l.subrange(4, end_a as int) == decimal(a as nat)
        &&& l[end_a as int] == 44u8
        &&& digit_run(l, end_a + 1, end_b as int) && l.subrange(end_a + 1, end_b as int) == decimal(b as nat)
        &&& l[end_b as int] == 32u8 && l[end_b + 1] == 43u8
        &&& digit_run(l, end_b + 2, end_c as int) && l.subrange(end_b + 2, end_c as int) == decimal(c as nat)
        &&& l[end_c as int] == 44u8
        &&& digit_run(l, end_c + 1, end_d as int) && l.subrange(end_c + 1, end_d as int) == decimal(d as nat)
        &&& l[end_d as int] == 32u8 && l[end_d + 1] == 64u8 && l[end_d + 2] == 64u8
    }),
{
    lemma_decimal(a as nat);
    lemma_decimal(b as nat);
    lemma_decimal(c as nat);
    lemma_decimal(d as nat);
    let l = hunk_line(a as nat, b as nat, c as nat, d as nat);
    let (da, db, dc, dd) = (decimal(a as nat), decimal(b as nat), decimal(c as nat), decimal(d as nat));
    let end_a: int = 4 + da.len() as int;
    let end_b: int = end_a + 1 + db.len();
    let end_c: int = end_b + 2 + dc.len();
    let end_d: int = end_c + 1 + dd.len();
    assert(l.subrange(0, 4) =~= seq![64u8, 64, 32, 45]);
    assert(l.subrange(4, end_a as int) =~= da);
    assert(l.subrange(end_a + 1, end_b as int) =~= db);
    assert(l.subrange(end_b + 2, end_c as int) =~= dc);
    assert(l.subrange(end_c + 1, end_d as int) =~= dd);
    assert forall|j: int| 4 <= j < end_a implies #[trigger] crate::bytes::is_digit(l[j]) by {
        assert(l[j] == l.subrange(4, end_a as int)[j - 4]);
    }
    assert forall|j: int| end_a + 1 <= j < end_b implies #[trigger] crate::bytes::is_digit(l[j]) by {
        assert(l[j] == l.subrange(end_a + 1, end_b as int)[j - end_a - 1]);
    }
    assert forall|j: int| end_b + 2 <= j < end_c implies #[trigger] crate::bytes::is_digit(l[j]) by {
        assert(l[j] == l.subrange(end_b + 2, end_c as int)[j - end_b - 2]);
    }
    assert forall|j: int| end_c + 1 <= j < end_d implies #[trigger] crate::bytes::is_digit(l[j]) by {
        assert(l[j] == l.subrange(end_c + 1, end_d as int)[j - end_c - 1]);
    }
}

/// The standalone patch of a hunk, with line counts taken from the lines emitted.
pub open spec fn patch_of(h: Hunk) -> Seq<u8> {
    file_header(h.old_file@, h.new_file@) + hunk_header(
        h.old_start as nat,
        old_side_len(h.lines@),
        h.new_start as nat,
        new_side_len(h.lines@),
    ) + body_bytes(h.lines@)
}

impl Hunk {
    /// The counts recorded in the header agree with the lines held.
    pub open spec fn wf(&self) -> bool {
        &&& self.old_count as nat == old_side_len(self.lines@)
        &&& self.new_count as nat == new_side_len(self.lines@)
    }

    /// The bytes to feed to the apply step to stage this hunk (or, applied in
    /// reverse, to unstage it).
    pub fn format_patch(&self) -> (r: Vec<u8>)
        ensures
            r@ == patch_of(*self),
    {
        let mut out: Vec<u8> = Vec::new();
        let dashes: Vec<u8> = vec![45u8, 45, 45, 32, 97, 47];
        let pluses: Vec<u8> = vec![43u8, 43, 43, 32, 98, 47];
        append(&mut out, &dashes);
        append(&mut out, &self.old_file);
        out.push(10u8);
        append(&mut out, &pluses);
        append(&mut out, &self.new_file);
        out.push(10u8);
        assert(out@ == file_header(self.old_file@, self.new_file@));
        let (old_n, new_n) = side_lens(&self.lines);
        let ghost start = out@;
        out.push(64u8);
        out.push(64u8);
        out.push(32u8);
        out.push(45u8);
        push_decimal(&mut out, self.old_start);
        out.push(44u8);
        push_decimal(&mut out, old_n);
        out.push(32u8);
        out.push(43u8);
        push_decimal(&mut out, self.new_start);
        out.push(44u8);
        push_decimal(&mut out, new_n);
        out.push(32u8);
        out.push(64u8);
        out.push(64u8);
        out.push(10u8);
        assert(out@ =~= start + hunk_header(
            self.old_start as nat,
            old_side_len(self.lines@),
            self.new_start as nat,
            new_side_len(self.lines@),
        ));
        let ghost head = out@;
        let mut i: usize = 0;
        while i < self.lines.len()
            invariant
                i <= self.lines@.len(),
                out@ == head + body_bytes(self.lines@.subrange(0, i as int)),
            decreases self.lines@.len() - i,
        {
            let l = &self.lines[i];
            let ghost before = out@;
            out.push(marker_of(l.origin));
            append(&mut out, &l.text);
            out.push(10u8);
            proof {
                let s = self.lines@.subrange(0, i as int + 1);
                assert(s.drop_last() =~= self.lines@.subrange(0, i as int));
                assert(out@ =~= before + line_bytes(*l));
            }
            i = i + 1;
        }
        assert(self.lines@.subrange(0, self.lines@.len() as int) =~= self.lines@);
        assert(out@ =~= patch_of(*self));
        out
    }
}

/// The four numbers of a hunk header line `@@ -a[,b] +c[,d] @@...`; an
/// omitted count is 1.
pub fn parse_hunk_header(line: &Vec<u8>) -> (r: Option<(u64, u64, u64, u64)>)
    ensures
        r is Some ==> line@.len() >= 4 && line@.subrange(0, 4) == seq![64u8, 64, 32, 45],
        is_hunk_line(line@) ==> r == Some(hunk_line_numbers(line@)),
{
    let ghost t = hunk_line_numbers(line@);
    proof {
        if is_hunk_line(line@) {
            lemma_hunk_line_layout(t.0, t.1, t.2, t.3);
            lemma_decimal(t.0 as nat);
            lemma_decimal(t.1 as nat);
            lemma_decimal(t.2 as nat);
            lemma_decimal(t.3 as nat);
        }
    }
    if !starts_with(line, &vec![64u8, 64, 32, 45]) {
        return None;
    }
    let (a, p) = match read_number(line, 4) {
        Some(x) => x,
        None => return None,
    };
    let (b, p) = if p < line.len() && line[p] == 44u8 {
        match read_number(line, p + 1) {
            Some(x) => x,
            None => return None,
        }
    } else {
        (1u64, p)
    };
    if !(p < line.len() && line.len() - p > 1 && line[p] == 32u8 && line[p + 1] == 43u8) {
        return None;
    }
    let (c, p) = match read_number(line, p + 2) {
        Some(x) => x,
        None => return None,
    };
    let (d, p) = if p < line.len() && line[p] == 44u8 {
        match read_number(line, p + 1) {
            Some(x) => x,
            None => return None,
        }
    } else {
        (1u64, p)
    };
    if !(p < line.len() && line.len() - p > 2 && line[p] == 32u8 && line[p + 1] == 64u8 && line[p + 2] == 64u8) {
        return None;
    }
    Some((a, b, c, d))
}

/// Every delta's status agrees with its paths, and every hunk of every delta
/// is well formed and names its delta's files.
pub open spec fn deltas_ok(ds: Seq<Delta>) -> bool {
    &&& forall|i: int| 0 <= i < ds.len() ==> (#[trigger] ds[i]).status == delta_status(ds[i].old_file@, ds[i].new_file@)
    &&& forall|i: int, j: int| 0 <= i < ds.len() && 0 <= j < ds[i].hunks@.len() ==> {
        let h = #[trigger] ds[i].hunks@[j];
        &&& h.wf()
        &&& h.old_file@ == ds[i].old_file@
        &&& h.new_file@ == ds[i].new_file@
    }
}

/// Splits `input` at newlines; a last line without one counts too.
pub fn split_lines(input: &Vec<u8>) -> (r: Vec<Vec<u8>>)
    ensures
        forall|i: int| 0 <= i < r@.len() ==> !(#[trigger] r@[i]@).contains(10u8),
        input@.len() == 0 || input@.last() == 10u8 ==> joined(words(r@)) == input@,
{
    let mut out: Vec<Vec<u8>> = Vec::new();
    let mut cur: Vec<u8> = Vec::new();
    let mut i: usize = 0;
    while i < input.len()
        invariant
            i <= input@.len(),
            !cur@.contains(10u8),
            forall|k: int| 0 <= k < out@.len() ==> !(#[trigger] out@[k]@).contains(10u8),
            joined(words(out@)) + cur@ == input@.subrange(0, i as int),
            i > 0 && input@[i - 1] == 10u8 ==> cur@.len() == 0,
        decreases input@.len() - i,
    {
        if input[i] == 10u8 {
            let ghost prev = out@;
            let ghost line = cur@;
            out.push(cur);
            cur = Vec::new();
            assert(cur@ =~= Seq::<u8>::empty());
            proof {
                assert(words(out@) =~= words(prev).push(line));
                lemma_joined_push(words(prev), line);
                assert(input@.subrange(0, i as int + 1) =~= input@.subrange(0, i as int) + seq![10u8]);
                assert(joined(words(out@)) + cur@ =~= input@.subrange(0, i as int + 1));
            }
        } else {
            let ghost before = cur@;
            cur.push(input[i]);
            assert forall|k: int| 0 <= k < cur@.len() implies cur@[k] != 10u8 by {
                if k < before.len() {
                    assert(cur@[k] == before[k]);
                }
            }
            assert(input@.subrange(0, i as int + 1) =~= input@.subrange(0, i as int).push(input@[i as int]));
            assert(joined(words(out@)) + cur@ =~= input@.subrange(0, i as int + 1));
        }
        i = i + 1;
    }
    assert(input@.subrange(0, input@.len() as int) =~= input@);
    proof {
        if input@.len() == 0 || input@.last() == 10u8 {
            assert(cur@ =~= Seq::<u8>::empty());
            assert(joined(words(out@)) + cur@ =~= joined(words(out@)));
        }
    }
    if cur.len() > 0 {
        out.push(cur);
    }
    out
}

/// A path from a `--- ` or `+++ ` line, without its `a/` or `b/` prefix.
fn header_path(line: &Vec<u8>) -> (r: Vec<u8>)
    requires
        line@.len() >= 4,
    ensures
        line@.len() >= 6 && line@[5] == 47u8 && (line@[4] == 97u8 || line@[4] == 98u8) ==> r@ == line@.subrange(
            6,
            line@.len() as int,
        ),
{
    if line.len() >= 6 && line[5] == 47u8 && (line[4] == 97u8 || line[4] == 98u8) {
        tail(line, 6)
    } else {
        tail(line, 4)
    }
}

pub open spec fn dev_null() -> Seq<u8> {
    seq![47u8, 100, 101, 118, 47, 110, 117, 108, 108]
}

/// What happened to a file, told from its old and new paths.
pub open spec fn delta_status(old_file: Seq<u8>, new_file: Seq<u8>) -> DeltaStatus {
    if old_file == dev_null() {
        DeltaStatus::Added
    } else if new_file == dev_null() {
        DeltaStatus::Deleted
    } else if old_file == new_file {
        DeltaStatus::Modified
    } else {
        DeltaStatus::Renamed
    }
}

/// `/dev/null`
fn is_dev_null(p: &Vec<u8>) -> (r: bool)
    ensures
        r == (p@ == dev_null()),
{
    bytes_eq(p, &vec![47u8, 100, 101, 118, 47, 110, 117, 108, 108])
}

fn status_of(old_file: &Vec<u8>, new_file: &Vec<u8>) -> (r: DeltaStatus)
    ensures
        r == delta_status(old_file@, new_file@),
{
    if is_dev_null(old_file) {
        DeltaStatus::Added
    } else if is_dev_null(new_file) {
        DeltaStatus::Deleted
    } else if bytes_eq(old_file, new_file) {
        DeltaStatus::Modified
    } else {
        DeltaStatus::Renamed
    }
}

/// Paths and line texts hold no newline, so each stands on a line of its own
/// in the patch.
pub open spec fn single_lines(h: Hunk) -> bool {
    &&& !h.old_file@.contains(10u8)
    &&& !h.new_file@.contains(10u8)
    &&& forall|i: int| 0 <= i < h.lines@.len() ==> !(#[trigger] h.lines@[i]).text@.contains(10u8)
}

/// A hunk whose patch `parse_diff` reads back.
pub open spec fn readable(h: Hunk) -> bool {
    h.wf() && single_lines(h)
}

/// `input` is the patch of some readable hunk.
pub open spec fn is_patch(input: Seq<u8>) -> bool {
    exists|h: Hunk| readable(h) && patch_of(h) == input
}

/// A readable hunk whose patch is `input`.
pub open spec fn patch_hunk(input: Seq<u8>) -> Hunk {
    choose|h: Hunk| readable(h) && patch_of(h) == input
}

/// The two sequences of body lines agree in origin and text.
pub open spec fn same_lines(a: Seq<DiffLine>, b: Seq<DiffLine>) -> bool {
    &&& a.len() == b.len()
    &&& forall|k: int| 0 <= k < a.len() ==> (#[trigger] a[k]).origin == b[k].origin && a[k].text@ == b[k].text@
}

/// The two hunks agree in files, numbers and lines.
pub open spec fn same_hunk(p: Hunk, h: Hunk) -> bool {
    &&& p.old_file@ == h.old_file@
    &&& p.new_file@ == h.new_file@
    &&& p.old_start == h.old_start
    &&& p.old_count == h.old_count
    &&& p.new_start == h.new_start
    &&& p.new_count == h.new_count
    &&& same_lines(p.lines@, h.lines@)
}

pub open spec fn body_line(l: DiffLine) -> Seq<u8> {
    seq![marker(l.origin)] + l.text@
}

/// The lines of a hunk's patch, without their newlines.
pub open spec fn patch_lines(h: Hunk) -> Seq<Seq<u8>> {
    seq![
        seq![45u8, 45, 45, 32, 97, 47] + h.old_file@,
        seq![43u8, 43, 43, 32, 98, 47] + h.new_file@,
        hunk_line(h.old_start as nat, old_side_len(h.lines@), h.new_start as nat, new_side_len(h.lines@)),
    ] + h.lines@.map_values(|l: DiffLine| body_line(l))
}

proof fn lemma_body_joined(lines: Seq<DiffLine>)
    ensures
        body_bytes(lines) == joined(lines.map_values(|l: DiffLine| body_line(l))),
    decreases lines.len(),
{
    if lines.len() == 0 {
        assert(lines.map_values(|l: DiffLine| body_line(l)) =~= Seq::<Seq<u8>>::empty());
    } else {
        lemma_body_joined(lines.drop_last());
        assert(lines.map_values(|l: DiffLine| body_line(l)) =~= lines.drop_last().map_values(
            |l: DiffLine| body_line(l),
        ).push(body_line(lines.last())));
        lemma_joined_push(lines.drop_last().map_values(|l: DiffLine| body_line(l)), body_line(lines.last()));
        assert(line_bytes(lines.last()) =~= body_line(lines.last()) + seq![10u8]);
        assert(body_bytes(lines) =~= joined(lines.map_values(|l: DiffLine| body_line(l))));
    }
}

proof fn lemma_patch_lines(h: Hunk)
    requires
        single_lines(h),
    ensures
        patch_of(h) == joined(patch_lines(h)),
        forall|i: int| 0 <= i < patch_lines(h).len() ==> !(#[trigger] patch_lines(h)[i]).contains(10u8),
{
    let pl = patch_lines(h);
    let body = h.lines@.map_values(|l: DiffLine| body_line(l));
    lemma_body_joined(h.lines@);
    assert(pl.drop_first().drop_first().drop_first() =~= body);
    assert(pl.drop_first().drop_first()[0] == pl[2]);
    assert(pl.drop_first()[0] == pl[1]);
    let d1 = pl.drop_first();
    let d2 = d1.drop_first();
    assert(joined(d2) == pl[2] + seq![10u8] + joined(body));
    assert(joined(d1) == pl[1] + seq![10u8] + joined(d2));
    assert(joined(pl) == pl[0] + seq![10u8] + joined(d1));
    assert(patch_of(h) =~= joined(pl));
    let hl = hunk_line(h.old_start as nat, old_side_len(h.lines@), h.new_start as nat, new_side_len(h.lines@));
    lemma_decimal(h.old_start as nat);
    lemma_decimal(old_side_len(h.lines@));
    lemma_decimal(h.new_start as nat);
    lemma_decimal(new_side_len(h.lines@));
    assert forall|i: int| 0 <= i < pl.len() implies !(#[trigger] pl[i]).contains(10u8) by {
        if i == 0 {
            if pl[0].contains(10u8) {
                let j = choose|j: int| 0 <= j < pl[0].len() && pl[0][j] == 10u8;
                if j >= 6 {
                    assert(h.old_file@[j - 6] == 10u8);
                }
            }
        } else if i == 1 {
            if pl[1].contains(10u8) {
                let j = choose|j: int| 0 <= j < pl[1].len() && pl[1][j] == 10u8;
                if j >= 6 {
                    assert(h.new_file@[j - 6] == 10u8);
                }
            }
        } else if i == 2 {
            if hl.contains(10u8) {
                let j = choose|j: int| 0 <= j < hl.len() && hl[j] == 10u8;
                lemma_hunk_line_no_newline(h.old_start as nat, old_side_len(h.lines@), h.new_start as nat, new_side_len(h.lines@), j);
            }
        } else {
            let l = h.lines@[i - 3];
            assert(pl[i] == body_line(l));
            assert(!l.text@.contains(10u8));
            if pl[i].contains(10u8) {
                let j = choose|j: int| 0 <= j < pl[i].len() && pl[i][j] == 10u8;
                if j >= 1 {
                    assert(l.text@[j - 1] == 10u8);
                }
            }
        }
    }
}

proof fn lemma_hunk_line_no_newline(a: nat, b: nat, c: nat, d: nat, j: int)
    requires
        0 <= j < hunk_line(a, b, c, d).len(),
    ensures
        hunk_line(a, b, c, d)[j] != 10u8,
{
    lemma_decimal(a);
    lemma_decimal(b);
    lemma_decimal(c);
    lemma_decimal(d);
    let (da, db, dc, dd) = (decimal(a), decimal(b), decimal(c), decimal(d));
    let l = hunk_line(a, b, c, d);
    let end_a: int = 4 + da.len() as int;
    let end_b: int = end_a + 1 + db.len();
    let end_c: int = end_b + 2 + dc.len();
    let end_d: int = end_c + 1 + dd.len();
    if 4 <= j < end_a {
        assert(l[j] == da[j - 4]);
    } else if end_a + 1 <= j < end_b {
        assert(l[j] == db[j - end_a - 1]);
    } else if end_b + 2 <= j < end_c {
        assert(l[j] == dc[j - end_b - 2]);
    } else if end_c + 1 <= j < end_d {
        assert(l[j] == dd[j - end_c - 1]);
    }
}

proof fn lemma_side_prefix(s: Seq<DiffLine>, k: int)
    requires
        0 <= k <= s.len(),
    ensures
        old_side_len(s.subrange(0, k)) <= old_side_len(s),
        new_side_len(s.subrange(0, k)) <= new_side_len(s),
    decreases s.len(),
{
    if k < s.len() {
        lemma_side_prefix(s.drop_last(), k);
        assert(s.drop_last().subrange(0, k) =~= s.subrange(0, k));
    } else {
        assert(s.subrange(0, k) =~= s);
    }
}

proof fn lemma_same_lines_sides(a: Seq<DiffLine>, b: Seq<DiffLine>)
    requires
        same_lines(a, b),
    ensures
        old_side_len(a) == old_side_len(b),
        new_side_len(a) == new_side_len(b),
    decreases a.len(),
{
    if a.len() > 0 {
        assert(a.last().origin == b[b.len() - 1].origin);
        assert(same_lines(a.drop_last(), b.drop_last())) by {
            assert forall|k: int| 0 <= k < a.drop_last().len() implies (#[trigger] a.drop_last()[k]).origin
                == b.drop_last()[k].origin && a.drop_last()[k].text@ == b.drop_last()[k].text@ by {
                assert(a.drop_last()[k] == a[k]);
                assert(b.drop_last()[k] == b[k]);
            }
        }
        lemma_same_lines_sides(a.drop_last(), b.drop_last());
    }
}

/// Parses unified diff text into deltas and hunks. Malformed text (a body
/// line outside a hunk, a bad header, a hunk shorter or longer than its
/// header says) yields no deltas at all.
pub fn parse_diff(input: &Vec<u8>) -> (r: Vec<Delta>)
    ensures
        deltas_ok(r@),
        is_patch(input@) ==> r@.len() == 1 && r@[0].hunks@.len() == 1 && same_hunk(
            r@[0].hunks@[0],
            patch_hunk(input@),
        ),
{
    let ghost pat = is_patch(input@);
    let ghost h = patch_hunk(input@);
    let lines = split_lines(input);
    proof {
        if pat {
            let pl = patch_lines(h);
            lemma_patch_lines(h);
            assert(pl =~= pl.drop_last().push(pl.last()));
            lemma_joined_push(pl.drop_last(), pl.last());
            assert(input@.last() == 10u8);
            assert forall|k: int| 0 <= k < words(lines@).len() implies !(#[trigger] words(lines@)[k]).contains(10u8) by {
                assert(words(lines@)[k] == lines@[k]@);
            }
            lemma_joined_unique(words(lines@), pl);
        }
    }
    let mut out: Vec<Delta> = Vec::new();
    let mut in_delta = false;
    let mut old_file: Vec<u8> = Vec::new();
    let mut new_file: Vec<u8> = Vec::new();
    let mut hunks: Vec<Hunk> = Vec::new();
    // the hunk being read
    let mut body: Vec<DiffLine> = Vec::new();
    let mut start: (u64, u64) = (0, 0);
    let mut counts: (u64, u64) = (0, 0);
    let mut left: (u64, u64) = (0, 0);
    let mut in_hunk = false;
    let mut i: usize = 0;
    while i < lines.len()
        invariant
            i <= lines@.len(),
            deltas_ok(out@),
            forall|j: int| 0 <= j < hunks@.len() ==> {
                let h = #[trigger] hunks@[j];
                &&& h.wf()
                &&& h.old_file@ == old_file@
                &&& h.new_file@ == new_file@
            },
            in_hunk ==> old_side_len(body@) + left.0 == counts.0 && new_side_len(body@) + left.1 == counts.1,
            pat == is_patch(input@),
            h == patch_hunk(input@),
            pat ==> words(lines@) == patch_lines(h) && readable(h),
            pat ==> out@.len() == 0 && hunks@.len() == 0,
            pat && i >= 1 ==> in_delta && old_file@ == h.old_file@,
            pat && i >= 2 ==> new_file@ == h.new_file@,
            pat && i < 3 ==> !in_hunk,
            pat && i >= 3 ==> in_hunk && start == (h.old_start, h.new_start) && counts == (h.old_count, h.new_count)
                && same_lines(body@, h.lines@.subrange(0, i - 3)),
        decreases lines@.len() - i,
    {
        let line = &lines[i];
        proof {
            if pat {
                let pl = patch_lines(h);
                assert(line@ == words(lines@)[i as int]);
                if i == 0 {
                    assert(line@[0] == 45u8);
                    assert(line@.subrange(0, 5)[0] == line@[0]);
                    assert(line@.subrange(0, 4) =~= seq![45u8, 45, 45, 32]);
                    assert(line@.subrange(6, line@.len() as int) =~= h.old_file@);
                } else if i == 1 {
                    assert(line@[0] == 43u8);
                    assert(line@.subrange(0, 5)[0] == line@[0]);
                    assert(line@.subrange(0, 4)[0] == line@[0]);
                    assert(line@.subrange(0, 4) =~= seq![43u8, 43, 43, 32]);
                    assert(line@.subrange(6, line@.len() as int) =~= h.new_file@);
                } else if i == 2 {
                    law_header_round_trip(h);
                    lemma_hunk_line_layout(h.old_start, h.old_count, h.new_start, h.new_count);
                    assert(line@[0] == 64u8);
                    assert(line@.subrange(0, 5)[0] == line@[0]);
                    assert(line@.subrange(0, 4)[0] == line@[0]);
                } else {
                    let k = i - 3;
                    let l = h.lines@[k];
                    assert(line@ == body_line(l));
                    lemma_same_lines_sides(body@, h.lines@.subrange(0, k));
                    lemma_side_prefix(h.lines@, k + 1);
                    assert(h.lines@.subrange(0, k + 1).drop_last() =~= h.lines@.subrange(0, k));
                    assert(h.lines@.subrange(0, k + 1).last() == l);
                    assert(in_hunk && (left.0 > 0 || left.1 > 0));
                    assert(line@[0] == marker(l.origin));
                    assert(line@.subrange(1, line@.len() as int) =~= l.text@);
                }
            }
        }
        if in_hunk && (left.0 > 0 || left.1 > 0) {
            let origin = if line.len() == 0 {
                Some(Origin::Context)
            } else if line[0] == 32u8 {
                Some(Origin::Context)
            } else if line[0] == 45u8 {
                Some(Origin::Deletion)
            } else if line[0] == 43u8 {
                Some(Origin::Addition)
            } else {
                None
            };
            match origin {
                None => {
                    if line[0] != 92u8 {
                        return Vec::new();
                    }
                },
                Some(o) => {
                    let take_old = o != Origin::Addition;
                    let take_new = o != Origin::Deletion;
                    if (take_old && left.0 == 0) || (take_new && left.1 == 0) {
                        return Vec::new();
                    }
                    let text = if line.len() == 0 { Vec::new() } else { tail(line, 1) };
                    let ghost before = body@;
                    body.push(DiffLine { origin: o, text });
                    assert(body@.drop_last() =~= before);
                    proof {
                        if pat {
                            let k = i - 3;
                            assert forall|m: int| 0 <= m < body@.len() implies (#[trigger] body@[m]).origin
                                == h.lines@.subrange(0, k + 1)[m].origin && body@[m].text@ == h.lines@.subrange(
                                0,
                                k + 1,
                            )[m].text@ by {
                                if m < k {
                                    assert(body@[m] == before[m]);
                                }
                            }
                        }
                    }
                    if take_old {
                        left.0 = left.0 - 1;
                    }
                    if take_new {
                        left.1 = left.1 - 1;
                    }
                },
            }
        } else {
            if in_hunk {
                hunks.push(Hunk {
                    old_file: copy_bytes(&old_file),
                    new_file: copy_bytes(&new_file),
                    old_start: start.0,
                    old_count: counts.0,
                    new_start: start.1,
                    new_count: counts.1,
                    lines: body,
                });
                body = Vec::new();
                in_hunk = false;
            }
            if starts_with(line, &vec![100u8, 105, 102, 102, 32]) {
                // `diff ` opens the next file
                if in_delta {
                    let st = status_of(&old_file, &new_file);
                    let ghost prev = out@;
                    out.push(Delta { old_file, new_file, status: st, hunks });
                    proof { assert(prev == out@.drop_last()); assert(deltas_ok(out@)) by {
                        assert forall|a: int, b: int| 0 <= a < out@.len() && 0 <= b < out@[a].hunks@.len() implies
                            (#[trigger] out@[a].hunks@[b]).wf() by { if a < prev.len() { assert(out@[a] == prev[a]); } }
                    } }
                    old_file = Vec::new();
                    new_file = Vec::new();
                    hunks = Vec::new();
                }
                in_delta = true;
            } else if starts_with(line, &vec![45u8, 45, 45, 32]) && hunks.len() == 0 {
                old_file = header_path(line);
                in_delta = true;
            } else if starts_with(line, &vec![43u8, 43, 43, 32]) && hunks.len() == 0 {
                new_file = header_path(line);
                in_delta = true;
            } else if starts_with(line, &vec![64u8, 64, 32, 45]) {
                match parse_hunk_header(line) {
                    Some((a, b, c, d)) => {
                        if !in_delta {
                            return Vec::new();
                        }
                        start = (a, c);
                        counts = (b, d);
                        left = (b, d);
                        body = Vec::new();
                        in_hunk = true;
                    },
                    None => return Vec::new(),
                }
            }
        }
        i = i + 1;
    }
    proof {
        if pat {
            assert(h.lines@.subrange(0, h.lines@.len() as int) =~= h.lines@);
            lemma_same_lines_sides(body@, h.lines@);
        }
    }
    if in_hunk {
        if left.0 > 0 || left.1 > 0 {
            return Vec::new();
        }
        hunks.push(Hunk {
            old_file: copy_bytes(&old_file),
            new_file: copy_bytes(&new_file),
            old_start: start.0,
            old_count: counts.0,
            new_start: start.1,
            new_count: counts.1,
            lines: body,
        });
    }
    if in_delta {
        let st = status_of(&old_file, &new_file);
        let ghost prev = out@;
        out.push(Delta { old_file, new_file, status: st, hunks });
        proof {
            assert forall|a: int, b: int| 0 <= a < out@.len() && 0 <= b < out@[a].hunks@.len() implies
                (#[trigger] out@[a].hunks@[b]).wf() by { if a < prev.len() { assert(out@[a] == prev[a]); } }
        }
    }
    out
}

pub fn marker_of(o: Origin) -> (r: u8)
    ensures
        r == marker(o),
{
    match o {
        Origin::Context => 32u8,
        Origin::Addition => 43u8,
        Origin::Deletion => 45u8,
    }
}

/// The old-side and new-side line counts of `lines`.
pub fn side_lens(lines: &Vec<DiffLine>) -> (r: (u64, u64))
    ensures
        r.0 as nat == old_side_len(lines@),
        r.1 as nat == new_side_len(lines@),
{
    let mut o: u64 = 0;
    let mut n: u64 = 0;
    let mut i: usize = 0;
    while i < lines.len()
        invariant
            i <= lines@.len(),
            o as nat == old_side_len(lines@.subrange(0, i as int)),
            n as nat == new_side_len(lines@.subrange(0, i as int)),
            o <= i,
            n <= i,
        decreases lines@.len() - i,
    {
        let ghost s = lines@.subrange(0, i as int + 1);
        assert(s.drop_last() =~= lines@.subrange(0, i as int));
        match lines[i].origin {
            Origin::Context => {
                o = o + 1;
                n = n + 1;
            },
            Origin::Addition => {
                n = n + 1;
            },
            Origin::Deletion => {
                o = o + 1;
            },
        }
        i = i + 1;
    }
    assert(lines@.subrange(0, lines@.len() as int) =~= lines@);
    (o, n)
}


/// A maximal run of digits from a given start has one end.
proof fn lemma_run_end_unique(v: Seq<u8>, pos: int, e1: int, e2: int)
    requires
        digit_run(v, pos, e1),
        digit_run(v, pos, e2),
    ensures
        e1 == e2,
{
    if e1 < e2 {
        assert(crate::bytes::is_digit(v[e1]));
    } else if e2 < e1 {
        assert(crate::bytes::is_digit(v[e2]));
    }
}

/// Different numbers give different header lines.
pub proof fn lemma_hunk_line_unique(t: (u64, u64, u64, u64), u: (u64, u64, u64, u64))
    requires
        hunk_line(t.0 as nat, t.1 as nat, t.2 as nat, t.3 as nat) == hunk_line(u.0 as nat, u.1 as nat, u.2 as nat, u.3 as nat),
    ensures
        t == u,
{
    lemma_hunk_line_layout(t.0, t.1, t.2, t.3);
    lemma_hunk_line_layout(u.0, u.1, u.2, u.3);
    lemma_decimal(t.0 as nat);
    lemma_decimal(t.1 as nat);
    lemma_decimal(t.2 as nat);
    lemma_decimal(t.3 as nat);
    lemma_decimal(u.0 as nat);
    lemma_decimal(u.1 as nat);
    lemma_decimal(u.2 as nat);
    lemma_decimal(u.3 as nat);
    let l = hunk_line(t.0 as nat, t.1 as nat, t.2 as nat, t.3 as nat);
    let (ta, tb, tc, td) = (decimal(t.0 as nat).len() as int, decimal(t.1 as nat).len() as int, decimal(t.2 as nat).len() as int, decimal(t.3 as nat).len() as int);
    let (ua, ub, uc, ud) = (decimal(u.0 as nat).len() as int, decimal(u.1 as nat).len() as int, decimal(u.2 as nat).len() as int, decimal(u.3 as nat).len() as int);
    lemma_run_end_unique(l, 4, 4 + ta, 4 + ua);
    let end_a: int = 4 + ta;
    lemma_run_end_unique(l, end_a + 1, end_a + 1 + tb, end_a + 1 + ub);
    let end_b: int = end_a + 1 + tb;
    lemma_run_end_unique(l, end_b + 2, end_b + 2 + tc, end_b + 2 + uc);
    let end_c: int = end_b + 2 + tc;
    lemma_run_end_unique(l, end_c + 1, end_c + 1 + td, end_c + 1 + ud);
}

/// The header line of a hunk's patch is read back, by `parse_hunk_header`,
/// as the hunk's own start lines and counts.
pub proof fn law_header_round_trip(h: Hunk)
    requires
        h.wf(),
    ensures
        is_hunk_line(hunk_line(h.old_start as nat, old_side_len(h.lines@), h.new_start as nat, new_side_len(h.lines@))),
        hunk_line_numbers(hunk_line(h.old_start as nat, old_side_len(h.lines@), h.new_start as nat, new_side_len(h.lines@)))
            == (h.old_start, h.old_count, h.new_start, h.new_count),
{
    let t = (h.old_start, h.old_count, h.new_start, h.new_count);
    let l = hunk_line(h.old_start as nat, h.old_count as nat, h.new_start as nat, h.new_count as nat);
    assert(l == hunk_line(t.0 as nat, t.1 as nat, t.2 as nat, t.3 as nat));
    let u = hunk_line_numbers(l);
    lemma_hunk_line_unique(t, u);
}

/// Re-reading a hunk's patch gives the hunk back: `parse_diff` of
/// `patch_of(h)` yields one delta whose one hunk agrees with `h` in files,
/// start lines, counts, origins and texts.
pub proof fn law_patch_round_trip(h: Hunk)
    requires
        readable(h),
    ensures
        is_patch(patch_of(h)),
        same_hunk(patch_hunk(patch_of(h)), h),
{
    let g = patch_hunk(patch_of(h));
    lemma_patch_lines(h);
    lemma_patch_lines(g);
    let (ph, pg) = (patch_lines(h), patch_lines(g));
    lemma_joined_unique(ph, pg);
    assert(ph[0] == pg[0]);
    assert(h.old_file@ =~= ph[0].subrange(6, ph[0].len() as int));
    assert(g.old_file@ =~= pg[0].subrange(6, pg[0].len() as int));
    assert(ph[1] == pg[1]);
    assert(h.new_file@ =~= ph[1].subrange(6, ph[1].len() as int));
    assert(g.new_file@ =~= pg[1].subrange(6, pg[1].len() as int));
    assert(ph[2] == pg[2]);
    lemma_hunk_line_unique(
        (h.old_start, h.old_count, h.new_start, h.new_count),
        (g.old_start, g.old_count, g.new_start, g.new_count),
    );
    assert(ph.len() == 3 + h.lines@.len());
    assert(pg.len() == 3 + g.lines@.len());
    assert forall|k: int| 0 <= k < h.lines@.len() implies (#[trigger] h.lines@[k]).origin == g.lines@[k].origin
        && h.lines@[k].text@ == g.lines@[k].text@ by {
        assert(ph[k + 3] == body_line(h.lines@[k]));
        assert(pg[k + 3] == body_line(g.lines@[k]));
        assert(body_line(h.lines@[k])[0] == marker(h.lines@[k].origin));
        assert(body_line(g.lines@[k])[0] == marker(g.lines@[k].origin));
        assert(h.lines@[k].text@ =~= body_line(h.lines@[k]).subrange(1, body_line(h.lines@[k]).len() as int));
        assert(g.lines@[k].text@ =~= body_line(g.lines@[k]).subrange(1, body_line(g.lines@[k]).len() as int));
    }
}

/// For a well-formed hunk the patch carries the hunk's own line counts.
pub proof fn law_patch_counts(h: Hunk)
    requires
        h.wf(),
    ensures
        patch_of(h) == file_header(h.old_file@, h.new_file@) + hunk_header(
            h.old_start as nat,
            h.old_count as nat,
            h.new_start as nat,
            h.new_count as nat,
        ) + body_bytes(h.lines@),
{
}

} // verus!
