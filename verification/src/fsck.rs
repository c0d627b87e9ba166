//! The check of a data directory: what is found, what is printed, and the
//! exit code.

use vstd::prelude::*;
use crate::admin::RecoveryReport;
use crate::kv_log_store::LogState;
use crate::names;
use crate::text::{self, dec_i64, dec_u64, join3};
use crate::types::LogId;

verus! {

/// What a check reads of a data directory that opens.
#[derive(Debug, Clone, Copy, PartialEq, Eq, Structural)]
pub struct FsckInput {
    /// The version of the stored format, where there is one.
    pub format: Option<u32>,
    /// The version that this program writes.
    pub expected_format: u32,
    pub current_rev: i64,
    pub compact_rev: i64,
    /// Nobody votes in the recorded membership.
    pub voterless: bool,
    pub log: LogState,
    pub applied: Option<LogId>,
}

/// What a check prints, and the exit code: 0 clean, 1 problems found, 2
/// unreadable.
#[derive(Debug)]
pub struct FsckOutput {
    pub lines: Vec<String>,
    pub code: i32,
}

/// A log position as it is printed.
pub open spec fn shown(l: Option<LogId>) -> Seq<char> {
    match l {
        None => "None"@,
        Some(l) => "Some(LogId { leader_id: LeaderId { term: "@ + text::dec(l.term as nat)
            + ", node_id: "@ + text::dec(l.node_id as nat) + " }, index: "@ + text::dec(
            l.index as nat,
        ) + " })"@,
    }
}

/// A log position as it is printed.
fn show(l: Option<LogId>) -> (r: String)
    ensures
        r@ == shown(l),
{
    match l {
        None => String::from_str("None"),
        Some(l) => {
            let mut s = join3(
                "Some(LogId { leader_id: LeaderId { term: ",
                dec_u64(l.term).as_str(),
                ", node_id: ",
            );
            s.append(dec_u64(l.node_id).as_str());
            s.append(" }, index: ");
            s.append(dec_u64(l.index).as_str());
            s.append(" })");
            s
        },
    }
}

/// Numbers, with commas between them.
pub open spec fn commas(ids: Seq<u64>) -> Seq<char>
    decreases ids.len(),
{
    if ids.len() == 0 {
        ""@
    } else if ids.len() == 1 {
        text::dec(ids[0] as nat)
    } else {
        commas(ids.drop_last()) + ", "@ + text::dec(ids.last() as nat)
    }
}

/// Numbers as they are printed.
fn show_ids(ids: &Vec<u64>) -> (r: String)
    ensures
        r@ == "["@ + commas(ids@) + "]"@,
{
    let mut s = String::from_str("");
    let mut i: usize = 0;
    assert(ids@.take(0).len() == 0);
    while i < ids.len()
        invariant
            i <= ids@.len(),
            s@ == commas(ids@.take(i as int)),
        decreases ids@.len() - i,
    {
        let ghost t = ids@.take(i + 1);
        assert(t.drop_last() =~= ids@.take(i as int));
        if i == 0 {
            s = dec_u64(ids[0]);
            assert(t.len() == 1);
        } else {
            s.append(", ");
            s.append(dec_u64(ids[i]).as_str());
        }
        i += 1;
    }
    assert(ids@.take(i as int) =~= ids@);
    join3("[", s.as_str(), "]")
}

/// Records are there.
pub open spec fn has_data(i: FsckInput) -> bool {
    i.current_rev > 0
}

/// The stored format is not the expected one.
pub open spec fn format_problem(i: FsckInput) -> bool {
    match i.format {
        Some(v) => v != i.expected_format,
        None => has_data(i),
    }
}

/// Records are there, and nobody votes.
pub open spec fn membership_problem(i: FsckInput) -> bool {
    has_data(i) && i.voterless
}

/// The log was purged, and how far it was applied is not recorded.
pub open spec fn applied_problem(i: FsckInput) -> bool {
    has_data(i) && i.applied is None && i.log.last_purged_log_id is Some
}

/// The compacted revision is not between zero and the current one.
pub open spec fn counter_problem(i: FsckInput) -> bool {
    i.compact_rev < 0 || i.compact_rev > i.current_rev
}

/// One problem or none.
pub open spec fn one_if(b: bool) -> nat {
    if b {
        1
    } else {
        0
    }
}

/// How many problems there are.
pub open spec fn problem_count(i: FsckInput) -> nat {
    one_if(format_problem(i)) + one_if(membership_problem(i)) + one_if(applied_problem(i)) + one_if(
        counter_problem(i),
    )
}

/// What is printed of the format.
pub open spec fn format_line(i: FsckInput) -> Seq<char> {
    match i.format {
        Some(v) => if v == i.expected_format {
            "ok    format_version: "@ + text::dec(v as nat)
        } else {
            "WARN  format_version: "@ + text::dec(v as nat) + " (this binary expects "@ + text::dec(
                i.expected_format as nat,
            ) + ")"@
        },
        None => if has_data(i) {
            "WARN  format_version: absent — pre-v1.0.1 directory, needs upgrade"@
        } else {
            "ok    format_version: absent (empty directory)"@
        },
    }
}

/// What is printed of the membership, if there are records.
pub open spec fn membership_lines(i: FsckInput) -> Seq<Seq<char>> {
    if membership_problem(i) {
        seq![
            "FAIL  raft membership: empty voter set with data present — would not elect a leader (#11)"@,
        ]
    } else if has_data(i) {
        seq!["ok    raft membership: non-empty voter set"@]
    } else {
        seq![]
    }
}

/// What is printed of the log.
pub open spec fn log_line(i: FsckInput) -> Seq<char> {
    "info  raft log: purged="@ + shown(i.log.last_purged_log_id) + " last="@ + shown(
        i.log.last_log_id,
    )
}

/// What is printed of the applied place.
pub open spec fn applied_line(i: FsckInput) -> Seq<char> {
    if applied_problem(i) {
        "FAIL  raft last_applied: absent but log is purged — would crash-loop on restart (#9)"@
    } else {
        "ok    raft last_applied: "@ + shown(i.applied)
    }
}

/// What is printed of the counters.
pub open spec fn counter_line(i: FsckInput) -> Seq<char> {
    if counter_problem(i) {
        "FAIL  mvcc counters: compact_rev "@ + text::dec_int(i.compact_rev as int)
            + " out of range [0, "@ + text::dec_int(i.current_rev as int) + "]"@
    } else {
        "ok    mvcc counters: current_rev="@ + text::dec_int(i.current_rev as int)
            + " compact_rev="@ + text::dec_int(i.compact_rev as int)
    }
}

/// Everything that is printed of a directory that opens, before the
/// verdict.
pub open spec fn finding_lines(i: FsckInput) -> Seq<Seq<char>> {
    seq![format_line(i)] + membership_lines(i) + seq![
        log_line(i),
        applied_line(i),
        counter_line(i),
    ]
}

/// Check what was read of a directory that opens: what to print, and how
/// many problems there are.
pub fn findings(i: FsckInput) -> (r: (Vec<String>, u32))
    ensures
        names::texts(r.0@) == finding_lines(i),
        r.1 == problem_count(i),
{
    let mut lines: Vec<String> = Vec::new();
    let mut problems: u32 = 0;
    let data = i.current_rev > 0;
    match i.format {
        Some(v) => {
            if v == i.expected_format {
                lines.push(
                    String::from_str("ok    format_version: ").concat(
                        dec_u64(v as u64).as_str(),
                    ),
                );
            } else {
                problems += 1;
                let mut s = join3(
                    "WARN  format_version: ",
                    dec_u64(v as u64).as_str(),
                    " (this binary expects ",
                );
                s.append(dec_u64(i.expected_format as u64).as_str());
                s.append(")");
                lines.push(s);
            }
        },
        None => {
            if data {
                problems += 1;
                lines.push(
                    String::from_str(
                        "WARN  format_version: absent — pre-v1.0.1 directory, needs upgrade",
                    ),
                );
            } else {
                lines.push(String::from_str("ok    format_version: absent (empty directory)"));
            }
        },
    }
    if data && i.voterless {
        problems += 1;
        lines.push(
            String::from_str(
                "FAIL  raft membership: empty voter set with data present — would not elect a leader (#11)",
            ),
        );
    } else if data {
        lines.push(String::from_str("ok    raft membership: non-empty voter set"));
    }
    let mut l = join3(
        "info  raft log: purged=",
        show(i.log.last_purged_log_id).as_str(),
        " last=",
    );
    l.append(show(i.log.last_log_id).as_str());
    lines.push(l);
    if data && i.applied.is_none() && i.log.last_purged_log_id.is_some() {
        problems += 1;
        lines.push(
            String::from_str(
                "FAIL  raft last_applied: absent but log is purged — would crash-loop on restart (#9)",
            ),
        );
    } else {
        lines.push(
            String::from_str("ok    raft last_applied: ").concat(show(i.applied).as_str()),
        );
    }
    if i.compact_rev < 0 || i.compact_rev > i.current_rev {
        problems += 1;
        let mut s = join3(
            "FAIL  mvcc counters: compact_rev ",
            dec_i64(i.compact_rev).as_str(),
            " out of range [0, ",
        );
        s.append(dec_i64(i.current_rev).as_str());
        s.append("]");
        lines.push(s);
    } else {
        let mut s = join3(
            "ok    mvcc counters: current_rev=",
            dec_i64(i.current_rev).as_str(),
            " compact_rev=",
        );
        s.append(dec_i64(i.compact_rev).as_str());
        lines.push(s);
    }
    assert(names::texts(lines@) =~= finding_lines(i));
    (lines, problems)
}

/// What is printed of a recovery.
pub open spec fn repair_lines(report: RecoveryReport, format: u32, problems: u32) -> Seq<Seq<char>> {
    if report.repaired() {
        (if report.membership_source is Some {
            seq![
                "  repaired raft membership from "@ + report.membership_source->0@ + ": voters="@
                    + ("["@ + commas(report.membership_voters@) + "]"@),
            ]
        } else {
            seq![]
        }) + (if report.adopted_applied is Some {
            seq!["  set last_applied to "@ + shown(report.adopted_applied)]
        } else {
            seq![]
        }) + (if report.stamped_format {
            seq!["  stamped format_version="@ + text::dec(format as nat)]
        } else {
            seq![]
        }) + seq![
            "fsck: repaired "@ + text::dec(problems as nat)
                + " problem(s). Re-run fsck to confirm."@,
        ]
    } else {
        seq![
            "fsck: nothing was auto-repairable ("@ + text::dec(problems as nat)
                + " problem(s) remain)."@,
            "      deep MVCC key-index damage is not auto-repaired; restore from a backup."@,
        ]
    }
}

/// The check of a directory without a data file.
pub fn nothing_to_check(src: &str) -> (r: FsckOutput)
    ensures
        r.code == 0,
        names::texts(r.lines@) == seq![
            "fsck: no data directory at "@ + src@ + " (nothing to check)"@,
        ],
{
    let mut lines: Vec<String> = Vec::new();
    lines.push(join3("fsck: no data directory at ", src, " (nothing to check)"));
    assert(names::texts(lines@) =~= seq![
        "fsck: no data directory at "@ + src@ + " (nothing to check)"@,
    ]);
    FsckOutput { lines, code: 0 }
}

/// The check of a data file that does not open.
pub fn unreadable(src: &str, error: &str) -> (r: FsckOutput)
    ensures
        r.code == 2,
        names::texts(r.lines@) == seq![
            "FAIL  structural: cannot open "@ + src@ + ": "@ + error@,
            "      the redb file is unreadable; restore from a backup."@,
        ],
{
    let mut lines: Vec<String> = Vec::new();
    lines.push(join3("FAIL  structural: cannot open ", src, ": ").concat(error));
    lines.push(String::from_str("      the redb file is unreadable; restore from a backup."));
    assert(names::texts(lines@) =~= seq![
        "FAIL  structural: cannot open "@ + src@ + ": "@ + error@,
        "      the redb file is unreadable; restore from a backup."@,
    ]);
    FsckOutput { lines, code: 2 }
}

/// What is printed as the verdict of a check.
pub open spec fn verdict_lines(
    problems: u32,
    format: u32,
    repair: Option<&RecoveryReport>,
) -> Seq<Seq<char>> {
    if problems == 0 {
        seq!["\nfsck: clean."@]
    } else {
        match repair {
            Some(report) => seq!["\nfsck --repair: applying metadata repairs..."@]
                + repair_lines(*report, format, problems),
            None => seq![
                "\nfsck: "@ + text::dec(problems as nat)
                    + " problem(s) found. Re-run with --repair to fix repairable ones."@,
            ],
        }
    }
}

/// The verdict of a check. A repair, if one was asked for, was made in
/// between and reported.
pub fn verdict(problems: u32, format: u32, repair: Option<&RecoveryReport>) -> (r: FsckOutput)
    ensures
        r.code == (if problems == 0 {
            0i32
        } else {
            1i32
        }),
        names::texts(r.lines@) == verdict_lines(problems, format, repair),
{
    let mut lines: Vec<String> = Vec::new();
    if problems == 0 {
        lines.push(String::from_str("\nfsck: clean."));
        assert(names::texts(lines@) =~= seq!["\nfsck: clean."@]);
        return FsckOutput { lines, code: 0 };
    }
    match repair {
        None => {
            lines.push(
                join3(
                    "\nfsck: ",
                    dec_u64(problems as u64).as_str(),
                    " problem(s) found. Re-run with --repair to fix repairable ones.",
                ),
            );
            assert(names::texts(lines@) =~= seq![
                "\nfsck: "@ + text::dec(problems as nat)
                    + " problem(s) found. Re-run with --repair to fix repairable ones."@,
            ]);
        },
        Some(report) => {
            lines.push(String::from_str("\nfsck --repair: applying metadata repairs..."));
            if report.did_something() {
                if let Some(src) = report.membership_source {
                    let ids = show_ids(&report.membership_voters);
                    lines.push(
                        join3("  repaired raft membership from ", src, ": voters=").concat(
                            ids.as_str(),
                        ),
                    );
                }
                if report.adopted_applied.is_some() {
                    lines.push(
                        String::from_str("  set last_applied to ").concat(
                            show(report.adopted_applied).as_str(),
                        ),
                    );
                }
                if report.stamped_format {
                    lines.push(
                        String::from_str("  stamped format_version=").concat(
                            dec_u64(format as u64).as_str(),
                        ),
                    );
                }
                lines.push(
                    join3(
                        "fsck: repaired ",
                        dec_u64(problems as u64).as_str(),
                        " problem(s). Re-run fsck to confirm.",
                    ),
                );
            } else {
                lines.push(
                    join3(
                        "fsck: nothing was auto-repairable (",
                        dec_u64(problems as u64).as_str(),
                        " problem(s) remain).",
                    ),
                );
                lines.push(
                    String::from_str(
                        "      deep MVCC key-index damage is not auto-repaired; restore from a backup.",
                    ),
                );
            }
            assert(names::texts(lines@) =~= seq![
                "\nfsck --repair: applying metadata repairs..."@,
            ] + repair_lines(*report, format, problems));
        },
    }
    FsckOutput { lines, code: 1 }
}

/// What a check finds of a data file.
#[derive(Debug)]
pub enum Subject {
    /// There is none.
    Missing,
    /// It does not open, with this text.
    Unreadable(String),
    /// It opens.
    Open(FsckInput),
}

/// Whether a check is followed by a recovery: if it is asked for, and
/// problems were found.
pub fn repairs(i: FsckInput, asked: bool) -> (r: bool)
    ensures
        r == (asked && problem_count(i) > 0),
{
    asked && findings(i).1 > 0
}

/// The check of a data directory from beginning to end. `repair` is what a
/// recovery did, if problems were found and it was asked for.
pub fn cmd_fsck(src: &str, subject: Subject, repair: Option<&RecoveryReport>) -> (r: FsckOutput)
    ensures
        r.code == (match subject {
            Subject::Missing => 0i32,
            Subject::Unreadable(_) => 2i32,
            Subject::Open(i) => if problem_count(i) == 0 {
                0i32
            } else {
                1i32
            },
        }),
        names::texts(r.lines@) == (match subject {
            Subject::Missing => seq![
                "fsck: no data directory at "@ + src@ + " (nothing to check)"@,
            ],
            Subject::Unreadable(e) => seq![
                "FAIL  structural: cannot open "@ + src@ + ": "@ + e@,
                "      the redb file is unreadable; restore from a backup."@,
            ],
            Subject::Open(i) => seq!["ok    structural: "@ + src@ + " opens"@] + finding_lines(i)
                + verdict_lines(problem_count(i) as u32, i.expected_format, repair),
        }),
{
    match subject {
        Subject::Missing => nothing_to_check(src),
        Subject::Unreadable(e) => unreadable(src, e.as_str()),
        Subject::Open(i) => {
            let mut lines: Vec<String> = Vec::new();
            lines.push(join3("ok    structural: ", src, " opens"));
            let (mut found, problems) = findings(i);
            let ghost f = found@;
            lines.append(&mut found);
            let end = verdict(problems, i.expected_format, repair);
            let ghost v = end.lines@;
            let mut last = end.lines;
            lines.append(&mut last);
            assert(names::texts(lines@) =~= seq!["ok    structural: "@ + src@ + " opens"@]
                + names::texts(f) + names::texts(v));
            FsckOutput { lines, code: end.code }
        },
    }
}

/// A directory without problems is clean, and one with any is not: the
/// exit code tells which.
pub proof fn law_clean_means_no_problem(i: FsckInput)
    ensures
        problem_count(i) == 0 <==> !format_problem(i) && !membership_problem(i)
            && !applied_problem(i) && !counter_problem(i),
        problem_count(i) <= 4,
{
}

/// A directory whose format, voters and applied place were repaired is
/// clean when checked again, if its counters are in order.
pub proof fn law_repaired_directory_checks_clean(before: FsckInput, after: FsckInput)
    requires
        !counter_problem(before),
        after.format == Some(before.expected_format),
        after.expected_format == before.expected_format,
        after.current_rev == before.current_rev,
        after.compact_rev == before.compact_rev,
        after.log == before.log,
        has_data(before) ==> !after.voterless,
        applied_problem(before) ==> after.applied is Some,
        !applied_problem(before) ==> after.applied == before.applied,
    ensures
        problem_count(after) == 0,
{
}

/// What counts as a problem: a stored format other than the expected one,
/// or none over records; records that nobody votes for; a purged log over
/// records without an applied place; a compacted revision outside of what
/// was written.
pub proof fn law_problems_are_these(i: FsckInput)
    ensures
        format_problem(i) <==> (i.format is Some && i.format->0 != i.expected_format) || (
        i.format is None && i.current_rev > 0),
        membership_problem(i) <==> i.current_rev > 0 && i.voterless,
        applied_problem(i) <==> i.current_rev > 0 && i.applied is None
            && i.log.last_purged_log_id is Some,
        counter_problem(i) <==> !(0 <= i.compact_rev <= i.current_rev),
        i.current_rev <= 0 ==> !membership_problem(i) && !applied_problem(i),
{
}

/// Each problem counts once.
pub proof fn law_each_problem_counts_once(i: FsckInput)
    ensures
        one_if(true) == 1,
        one_if(false) == 0,
        problem_count(i) == one_if(format_problem(i)) + one_if(membership_problem(i)) + one_if(
            applied_problem(i),
        ) + one_if(counter_problem(i)),
        format_problem(i) && membership_problem(i) && applied_problem(i) && counter_problem(i)
            ==> problem_count(i) == 4,
{
}

/// A log position is printed with its term, its node and its index; where
/// there is none, that is said.
pub proof fn law_log_position_is_printed_whole(l: LogId)
    ensures
        shown(None) == "None"@,
        shown(Some(l)) == "Some(LogId { leader_id: LeaderId { term: "@ + text::dec(l.term as nat)
            + ", node_id: "@ + text::dec(l.node_id as nat) + " }, index: "@ + text::dec(
            l.index as nat,
        ) + " })"@,
{
}

/// Numbers are joined with a comma and a blank between each two.
pub proof fn law_numbers_are_joined_by_commas(ids: Seq<u64>, x: u64)
    ensures
        commas(seq![]) == ""@,
        commas(seq![x]) == text::dec(x as nat),
        ids.len() > 0 ==> commas(ids.push(x)) == commas(ids) + ", "@ + text::dec(x as nat),
{
    assert(ids.push(x).drop_last() =~= ids);
}

/// What is printed says of the format, the membership, the log, the
/// applied place and the counters, in this order, whether each is in
/// order; of the membership only where there are records.
pub proof fn law_findings_are_printed_in_order(i: FsckInput)
    ensures
        i.current_rev > 0 ==> finding_lines(i).len() == 5,
        i.current_rev <= 0 ==> finding_lines(i).len() == 4,
        finding_lines(i)[0] == format_line(i),
        i.current_rev > 0 ==> finding_lines(i)[1] == membership_lines(i)[0],
        finding_lines(i)[finding_lines(i).len() - 3] == log_line(i),
        finding_lines(i)[finding_lines(i).len() - 2] == applied_line(i),
        finding_lines(i)[finding_lines(i).len() - 1] == counter_line(i),
{
}

/// The line of the format tells the version that is there, and the one
/// that is expected where they differ.
pub proof fn law_format_line_tells_the_version(i: FsckInput)
    ensures
        i.format matches Some(v) ==> v == i.expected_format ==> format_line(i)
            == "ok    format_version: "@ + text::dec(v as nat),
        i.format matches Some(v) ==> v != i.expected_format ==> format_line(i)
            == "WARN  format_version: "@ + text::dec(v as nat) + " (this binary expects "@
            + text::dec(i.expected_format as nat) + ")"@,
        i.format is None && i.current_rev > 0 ==> format_line(i)
            == "WARN  format_version: absent — pre-v1.0.1 directory, needs upgrade"@,
        i.format is None && i.current_rev <= 0 ==> format_line(i)
            == "ok    format_version: absent (empty directory)"@,
{
}

/// The other lines fail exactly where there is the problem, and tell the
/// numbers they speak of.
pub proof fn law_lines_fail_with_their_problems(i: FsckInput)
    ensures
        i.current_rev > 0 && i.voterless ==> membership_lines(i) == seq![
            "FAIL  raft membership: empty voter set with data present — would not elect a leader (#11)"@,
        ],
        i.current_rev > 0 && !i.voterless ==> membership_lines(i) == seq![
            "ok    raft membership: non-empty voter set"@,
        ],
        i.current_rev <= 0 ==> membership_lines(i).len() == 0,
        log_line(i) == "info  raft log: purged="@ + shown(i.log.last_purged_log_id) + " last="@
            + shown(i.log.last_log_id),
        i.current_rev > 0 && i.applied is None && i.log.last_purged_log_id is Some
            ==> applied_line(i)
            == "FAIL  raft last_applied: absent but log is purged — would crash-loop on restart (#9)"@,
        i.current_rev <= 0 || i.applied is Some || i.log.last_purged_log_id is None
            ==> applied_line(i) == "ok    raft last_applied: "@ + shown(i.applied),
        0 <= i.compact_rev <= i.current_rev ==> counter_line(i)
            == "ok    mvcc counters: current_rev="@ + text::dec_int(i.current_rev as int)
            + " compact_rev="@ + text::dec_int(i.compact_rev as int),
        !(0 <= i.compact_rev <= i.current_rev) ==> counter_line(i)
            == "FAIL  mvcc counters: compact_rev "@ + text::dec_int(i.compact_rev as int)
            + " out of range [0, "@ + text::dec_int(i.current_rev as int) + "]"@,
{
}

/// The verdict is clean exactly without problems; with problems it asks
/// for a repair, or tells what one did.
pub proof fn law_verdict_tells_what_is_left(
    problems: u32,
    format: u32,
    repair: Option<&RecoveryReport>,
)
    ensures
        problems == 0 ==> verdict_lines(problems, format, repair) == seq!["\nfsck: clean."@],
        problems > 0 && repair is None ==> verdict_lines(problems, format, repair) == seq![
            "\nfsck: "@ + text::dec(problems as nat)
                + " problem(s) found. Re-run with --repair to fix repairable ones."@,
        ],
        problems > 0 && repair is Some ==> {
            let out = verdict_lines(problems, format, repair);
            &&& out[0] == "\nfsck --repair: applying metadata repairs..."@
            &&& out.skip(1) == repair_lines(*repair->0, format, problems)
        },
{
    if problems > 0 && repair is Some {
        assert(verdict_lines(problems, format, repair).skip(1) =~= repair_lines(
            *repair->0,
            format,
            problems,
        ));
    }
}

/// A repair tells each thing it did, in order, and how many problems it
/// was for; where it could do nothing it says so.
pub proof fn law_repair_tells_each_thing_it_did(
    report: RecoveryReport,
    format: u32,
    problems: u32,
)
    ensures
        ({
            let out = repair_lines(report, format, problems);
            let m = if report.membership_source is Some {
                1int
            } else {
                0int
            };
            let a = if report.adopted_applied is Some {
                1int
            } else {
                0int
            };
            let f = if report.stamped_format {
                1int
            } else {
                0int
            };
            &&& m + a + f > 0 ==> out.len() == m + a + f + 1 && out.last() == "fsck: repaired "@
                + text::dec(problems as nat) + " problem(s). Re-run fsck to confirm."@
            &&& m == 1 ==> out[0] == "  repaired raft membership from "@
                + report.membership_source->0@ + ": voters="@ + ("["@ + commas(
                report.membership_voters@,
            ) + "]"@)
            &&& a == 1 ==> out[m] == "  set last_applied to "@ + shown(report.adopted_applied)
            &&& f == 1 ==> out[m + a] == "  stamped format_version="@ + text::dec(format as nat)
            &&& m + a + f == 0 ==> out.len() == 2 && out[0]
                == "fsck: nothing was auto-repairable ("@ + text::dec(problems as nat)
                + " problem(s) remain)."@ && out[1]
                == "      deep MVCC key-index damage is not auto-repaired; restore from a backup."@
        }),
{
}

} // verus!
