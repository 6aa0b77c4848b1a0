//! The process lister: gathers the process or thread ids of a cgroup
//! (optionally with all its descendants), resolves each id's display
//! command, extracts the per-process statistic where the active statistic
//! has one, and sorts the entries.

use vstd::prelude::*;

use crate::cgroup::clamp_usize;
use crate::file_proc::{
    fp_matches_def, fp_stat, fp_wf, get_file_processor, lookup_lines, parse_ok, stat_matches,
    sv_extract, ExtractRes, FileProcessor, FileProcessorError, SingleValueProcessor, StatRes,
};
use crate::fsdata::FsDir;
use crate::sorting::{insert_le, lemma_ins_pos, lemma_sort_by_le_len, sort_by_le, total_preorder};
use crate::stats::{stat_wf, ProcStatType, Stat};
use crate::text::{
    all_digits, chars_cmp, lemma_chars_cmp_props, lemma_chars_cmp_trans, parse_usize, str_cmp,
    str_val,
};

verus! {

/// One process or thread: its id, the resolved display command, and the
/// per-process statistic or the reason it could not be read.
pub struct Proc {
    pub pid: usize,
    pub cmd: String,
    pub stat: Result<usize, FileProcessorError>,
}

/// The snapshot of one process's pseudo-directory, keyed by its id.
pub struct ProcData {
    pub pid: usize,
    pub dir: FsDir,
}

/// The order the process table is sorted in.
#[derive(Debug, Clone, Copy, PartialEq, Eq, Structural)]
pub enum ProcSortOrder {
    PidAsc,
    PidDsc,
    StatAsc,
    StatDsc,
    CmdAsc,
    CmdDsc,
}

/// The id file read for the listing.
pub open spec fn pid_file(threads: bool) -> Seq<char> {
    if threads {
        "cgroup.threads"@
    } else {
        "cgroup.procs"@
    }
}

/// The message of a listing whose id file holds a line that is not a
/// process id.
pub open spec fn invalid_pid_msg() -> Seq<char> {
    "Invalid process id"@
}

/// A line that reads as a process id.
pub open spec fn valid_pid(l: Seq<char>) -> bool {
    l.len() > 0 && all_digits(l) && str_val(l) <= usize::MAX as int
}

pub open spec fn pid_lines_ok(lines: Seq<Seq<char>>) -> bool {
    forall|i: int| 0 <= i < lines.len() ==> valid_pid(#[trigger] lines[i])
}

/// The ids the lines carry, in file order.
pub open spec fn lines_pids(lines: Seq<Seq<char>>) -> Seq<usize> {
    Seq::new(lines.len(), |i: int| str_val(lines[i]) as usize)
}

/// What gathering ids from a directory snapshot yields.  The id file is
/// read first: a missing file or an invalid line fails the whole listing.
/// With descendants included, an unlistable directory fails it too, while
/// a descendant that fails merely contributes no ids.
pub open spec fn pids_spec(d: FsDir, threads: bool, include_children: bool) -> Result<
    Seq<usize>,
    Seq<char>,
>
    decreases d, 1int,
{
    match lookup_lines(d, pid_file(threads)) {
        Err(m) => Err(m),
        Ok(lines) => if !pid_lines_ok(lines) {
            Err(invalid_pid_msg())
        } else {
            if include_children {
                match d.error {
                    Some(m) => Err(m@),
                    None => Ok(lines_pids(lines) + subdir_pids(d.subdirs@, threads)),
                }
            } else {
                Ok(lines_pids(lines))
            }
        },
    }
}

/// The ids the subdirectories contribute, failures skipped.
pub open spec fn subdir_pids(subs: Seq<FsDir>, threads: bool) -> Seq<usize>
    decreases subs, 0int, subs.len(),
{
    if subs.len() == 0 {
        Seq::empty()
    } else {
        (match pids_spec(subs[0], threads, true) {
            Ok(ps) => ps,
            Err(_) => Seq::empty(),
        }) + subdir_pids(subs.drop_first(), threads)
    }
}

/// Gathers the process or thread ids of the cgroup snapshot.
pub fn load_pids(dir: &FsDir, threads: bool, include_children: bool) -> (r: Result<
    Vec<usize>,
    String,
>)
    ensures
        match pids_spec(*dir, threads, include_children) {
            Ok(ps) => r matches Ok(v) && v@ == ps,
            Err(m) => r matches Err(s) && s@ == m,
        },
    decreases *dir,
{
    let file = if threads {
        "cgroup.threads"
    } else {
        "cgroup.procs"
    };
    let lines = match crate::file_proc::read_file_lines(dir, file) {
        Err(m) => {
            return Err(m);
        }
        Ok(lines) => lines,
    };
    let n = lines.len();
    let mut pids: Vec<usize> = Vec::new();
    let mut i: usize = 0;
    while i < n
        invariant
            0 <= i <= n,
            n == lines@.len(),
            lines.deep_view().len() == n,
            lookup_lines(*dir, pid_file(threads)) matches Ok(l) && l == lines.deep_view(),
            pids@.len() == i,
            forall|j: int| 0 <= j < i ==> valid_pid(#[trigger] lines.deep_view()[j]),
            forall|j: int| 0 <= j < i ==> #[trigger] pids@[j] as int == str_val(
                lines.deep_view()[j],
            ),
        decreases n - i,
    {
        proof {
            assert(lines.deep_view()[i as int] == lines@[i as int]@);
        }
        match parse_usize(lines[i].as_str()) {
            Some(p) => {
                pids.push(p);
            }
            None => {
                return Err(String::from_str("Invalid process id"));
            }
        }
        i = i + 1;
    }
    if include_children {
        if let Some(msg) = &dir.error {
            return Err(String::from_str(msg.as_str()));
        }
        let m = dir.subdirs.len();
        let mut k: usize = 0;
        proof {
            assert(lines_pids(lines.deep_view()) =~= pids@);
            assert(dir.subdirs@.skip(0) =~= dir.subdirs@);
        }
        while k < m
            invariant
                0 <= k <= m,
                m == dir.subdirs@.len(),
                pids@ == lines_pids(lines.deep_view()) + gathered(dir.subdirs@, threads, k as int),
                subdir_pids(dir.subdirs@, threads) == gathered(dir.subdirs@, threads, k as int)
                    + subdir_pids(dir.subdirs@.skip(k as int), threads),
            decreases m - k,
        {
            proof {
                assert(dir.subdirs@.skip(k as int)[0] == dir.subdirs@[k as int]);
                assert(dir.subdirs@.skip(k as int).drop_first() =~= dir.subdirs@.skip(k + 1));
            }
            match load_pids(&dir.subdirs[k], threads, true) {
                Ok(child) => {
                    let cn = child.len();
                    let mut c: usize = 0;
                    let ghost before = pids@;
                    let ghost childv = child@;
                    while c < cn
                        invariant
                            0 <= c <= cn,
                            cn == childv.len(),
                            child@ == childv,
                            pids@ == before + childv.take(c as int),
                        decreases cn - c,
                    {
                        pids.push(child[c]);
                        proof {
                            assert(before + childv.take(c + 1) =~= (before + childv.take(
                                c as int,
                            )).push(childv[c as int]));
                        }
                        c = c + 1;
                    }
                    proof {
                        assert(childv.take(cn as int) =~= childv);
                        assert(gathered(dir.subdirs@, threads, k as int + 1) =~= gathered(
                            dir.subdirs@,
                            threads,
                            k as int,
                        ) + childv);
                        assert(pids@ =~= lines_pids(lines.deep_view()) + gathered(
                            dir.subdirs@,
                            threads,
                            k + 1,
                        ));
                    }
                }
                Err(_) => {
                    proof {
                        assert(gathered(dir.subdirs@, threads, k as int + 1) =~= gathered(
                            dir.subdirs@,
                            threads,
                            k as int,
                        ));
                    }
                }
            }
            k = k + 1;
        }
        proof {
            assert(dir.subdirs@.skip(m as int) =~= Seq::<FsDir>::empty());
            assert(subdir_pids(Seq::<FsDir>::empty(), threads) =~= Seq::<usize>::empty());
            assert(pids@ =~= lines_pids(lines.deep_view()) + subdir_pids(dir.subdirs@, threads));
        }
    } else {
        proof {
            assert(pids@ =~= lines_pids(lines.deep_view()));
        }
    }
    Ok(pids)
}

/// The ids contributed by the first `k` subdirectories.
pub open spec fn gathered(subs: Seq<FsDir>, threads: bool, k: int) -> Seq<usize>
    decreases k,
{
    if k <= 0 {
        Seq::empty()
    } else {
        gathered(subs, threads, k - 1) + (match pids_spec(subs[k - 1], threads, true) {
            Ok(ps) => ps,
            Err(_) => Seq::empty(),
        })
    }
}

/// The first line of the named file.
pub open spec fn first_line(d: FsDir, name: Seq<char>) -> ExtractRes {
    match lookup_lines(d, name) {
        Err(m) => ExtractRes::Io(m),
        Ok(lines) => if lines.len() == 0 {
            ExtractRes::NotFound
        } else {
            ExtractRes::Value(lines[0])
        },
    }
}

/// Drops the trailing NUL terminators of a raw command line.
pub open spec fn trim_nuls(l: Seq<char>) -> Seq<char>
    decreases l.len(),
{
    if l.len() > 0 && l.last() == '\0' {
        trim_nuls(l.drop_last())
    } else {
        l
    }
}

proof fn lemma_trim_nuls(l: Seq<char>, e: int)
    requires
        0 <= e <= l.len(),
        forall|j: int| e <= j < l.len() ==> #[trigger] l[j] == '\0',
        e > 0 ==> l[e - 1] != '\0',
    ensures
        trim_nuls(l) == l.take(e),
    decreases l.len(),
{
    if l.len() > e {
        assert(l.last() == '\0');
        assert forall|j: int| e <= j < l.drop_last().len() implies #[trigger] l.drop_last()[j]
            == '\0' by {
            assert(l.drop_last()[j] == l[j]);
        }
        lemma_trim_nuls(l.drop_last(), e);
        assert(l.drop_last().take(e) =~= l.take(e));
    } else {
        assert(l.take(e) =~= l);
    }
}

/// The embedded NUL separators of a command line, turned into spaces.
pub open spec fn nul_to_space(l: Seq<char>) -> Seq<char> {
    l.map_values(
        |c: char|
            if c == '\0' {
                ' '
            } else {
                c
            },
    )
}

/// The display command of a process: the command line with its trailing
/// terminators dropped and its separators turned into spaces; when the
/// command line cannot be read, the bracketed short name; when neither
/// can, a fixed marker.
pub open spec fn cmd_of(d: FsDir) -> Seq<char> {
    match first_line(d, "cmdline"@) {
        ExtractRes::Value(l) => nul_to_space(trim_nuls(l)),
        _ => match first_line(d, "comm"@) {
            ExtractRes::Value(l) => "["@ + l + "]"@,
            _ => "<Unknown>"@,
        },
    }
}

/// Resolves the display command from the process's snapshot.
fn build_cmd(d: &FsDir) -> (r: String)
    ensures
        r@ == cmd_of(*d),
{
    let mut cmdline = SingleValueProcessor::new();
    cmdline.set_file("cmdline");
    match cmdline.get_value(d) {
        Ok(line) => {
            proof {
                assert(sv_extract(cmdline, *d) == first_line(*d, "cmdline"@));
            }
            let n = line.as_str().unicode_len();
            let mut e: usize = n;
            while e > 0 && line.as_str().get_char(e - 1) == '\0'
                invariant
                    0 <= e <= n,
                    n == line@.len(),
                    forall|j: int| e <= j < n ==> #[trigger] line@[j] == '\0',
                decreases e,
            {
                e = e - 1;
            }
            proof {
                lemma_trim_nuls(line@, e as int);
            }
            let mut out = String::new();
            let mut i: usize = 0;
            proof {
                assert(out@ =~= nul_to_space(line@.take(0)));
            }
            while i < e
                invariant
                    0 <= i <= e,
                    e <= n,
                    n == line@.len(),
                    out@ == nul_to_space(line@.take(i as int)),
                decreases e - i,
            {
                let c = line.as_str().get_char(i);
                if c == '\0' {
                    out.push(' ');
                } else {
                    out.push(c);
                }
                proof {
                    assert(out@ =~= nul_to_space(line@.take(i + 1)));
                }
                i = i + 1;
            }
            out
        }
        Err(_) => {
            proof {
                assert(sv_extract(cmdline, *d) == first_line(*d, "cmdline"@));
            }
            let mut comm = SingleValueProcessor::new();
            comm.set_file("comm");
            match comm.get_value(d) {
                Ok(line) => {
                    proof {
                        assert(sv_extract(comm, *d) == first_line(*d, "comm"@));
                    }
                    let mut out = String::from_str("[");
                    out.append(line.as_str());
                    out.append("]");
                    out
                }
                Err(_) => {
                    proof {
                        assert(sv_extract(comm, *d) == first_line(*d, "comm"@));
                    }
                    String::from_str("<Unknown>")
                }
            }
        }
    }
}

/// How the per-process statistic is scaled: a kilobyte quantity is turned
/// into bytes, saturating at the top of `usize`.
pub open spec fn kb_result(
    pst: ProcStatType,
    st: StatRes,
    r: Result<usize, FileProcessorError>,
) -> bool {
    match st {
        StatRes::Num(n) => match pst {
            ProcStatType::MemQtyKb => r matches Ok(v) && v as int == clamp_usize(n * 1024),
            ProcStatType::Absent => r matches Ok(v) && v as int == n,
        },
        _ => stat_matches(st, r),
    }
}

/// The per-process statistic: where the active statistic has a parsable
/// per-process definition, the extraction of that definition, scaled by
/// its unit; otherwise a fixed zero.
pub open spec fn proc_stat_rel(
    stat: Stat,
    d: FsDir,
    r: Result<usize, FileProcessorError>,
) -> bool {
    if parse_ok(stat.proc_def@) {
        exists|p: FileProcessor|
            #[trigger] fp_wf(p) && fp_matches_def(p, stat.proc_def@) && kb_result(
                stat.proc_stype,
                fp_stat(p, d),
                r,
            )
    } else {
        r matches Ok(v) && v == 0
    }
}

/// One built process entry.
pub open spec fn proc_entry_matches(pd: ProcData, stat: Stat, p: Proc) -> bool {
    &&& p.pid == pd.pid
    &&& p.cmd@ == cmd_of(pd.dir)
    &&& proc_stat_rel(stat, pd.dir, p.stat)
}

/// The whole built list, before sorting.
pub open spec fn procs_built(pds: Seq<ProcData>, stat: Stat, built: Seq<Proc>) -> bool {
    built.len() == pds.len() && forall|i: int|
        0 <= i < pds.len() ==> proc_entry_matches(pds[i], stat, #[trigger] built[i])
}

/// The statistic an entry sorts by: its value, errors counting as zero.
pub open spec fn stat_key(p: Proc) -> int {
    match p.stat {
        Ok(v) => v as int,
        Err(_) => 0,
    }
}

/// The sort's "not above" relation for each order: by id, by command text
/// or by statistic value; descending orders flip the operands.
pub open spec fn proc_le(sort: ProcSortOrder, a: Proc, b: Proc) -> bool {
    match sort {
        ProcSortOrder::PidAsc => a.pid <= b.pid,
        ProcSortOrder::PidDsc => b.pid <= a.pid,
        ProcSortOrder::CmdAsc => chars_cmp(a.cmd@, b.cmd@) <= 0,
        ProcSortOrder::CmdDsc => chars_cmp(b.cmd@, a.cmd@) <= 0,
        ProcSortOrder::StatAsc => stat_key(a) <= stat_key(b),
        ProcSortOrder::StatDsc => stat_key(b) <= stat_key(a),
    }
}

pub open spec fn proc_le_fn(sort: ProcSortOrder) -> spec_fn(Proc, Proc) -> bool {
    |a: Proc, b: Proc| proc_le(sort, a, b)
}

pub proof fn lemma_proc_le_total(sort: ProcSortOrder)
    ensures
        total_preorder(proc_le_fn(sort)),
{
    let le = proc_le_fn(sort);
    assert forall|a: Proc, b: Proc| #[trigger] le(a, b) || #[trigger] le(b, a) by {
        lemma_chars_cmp_props(a.cmd@, b.cmd@);
        lemma_chars_cmp_props(b.cmd@, a.cmd@);
    }
    assert forall|a: Proc, b: Proc, c: Proc|
        #[trigger] le(a, b) && #[trigger] le(b, c) implies le(a, c) by {
        match sort {
            ProcSortOrder::CmdAsc => {
                lemma_chars_cmp_trans(a.cmd@, b.cmd@, c.cmd@);
            }
            ProcSortOrder::CmdDsc => {
                lemma_chars_cmp_trans(c.cmd@, b.cmd@, a.cmd@);
            }
            _ => {
            }
        }
    }
}

/// Compares two entries under the active order.
fn proc_le_exec(sort: ProcSortOrder, a: &Proc, b: &Proc) -> (r: bool)
    ensures
        r == proc_le(sort, *a, *b),
{
    match sort {
        ProcSortOrder::PidAsc => a.pid <= b.pid,
        ProcSortOrder::PidDsc => b.pid <= a.pid,
        ProcSortOrder::CmdAsc => str_cmp(a.cmd.as_str(), b.cmd.as_str()) <= 0,
        ProcSortOrder::CmdDsc => str_cmp(b.cmd.as_str(), a.cmd.as_str()) <= 0,
        ProcSortOrder::StatAsc => stat_key_exec(a) <= stat_key_exec(b),
        ProcSortOrder::StatDsc => stat_key_exec(b) <= stat_key_exec(a),
    }
}

fn stat_key_exec(p: &Proc) -> (r: usize)
    ensures
        r as int == stat_key(*p),
{
    match &p.stat {
        Ok(v) => *v,
        Err(_) => 0,
    }
}

/// Sorts the process list stably under the given order.
fn sort_procs(v: Vec<Proc>, sort: ProcSortOrder) -> (r: Vec<Proc>)
    ensures
        r@ == sort_by_le(proc_le_fn(sort), v@),
{
    let ghost orig = v@;
    let ghost le = proc_le_fn(sort);
    proof {
        assert(orig.len() == v.len());
    }
    let mut rest = v;
    let mut out: Vec<Proc> = Vec::new();
    proof {
        assert(orig.take(0) =~= Seq::<Proc>::empty());
        assert(rest@ =~= orig.skip(0));
    }
    let mut k: usize = 0;
    while rest.len() > 0
        invariant
            0 <= k <= orig.len(),
            orig.len() <= usize::MAX,
            k + rest@.len() == orig.len(),
            rest@ =~= orig.skip(k as int),
            out@ == sort_by_le(le, orig.take(k as int)),
            le == proc_le_fn(sort),
        decreases rest@.len(),
    {
        let x = rest.remove(0);
        proof {
            assert(x == orig[k as int]);
            assert(rest@ =~= orig.skip(k as int + 1));
            lemma_sort_by_le_len(le, orig.take(k as int));
        }
        let n = out.len();
        let mut p: usize = 0;
        while p < n && proc_le_exec(sort, &out[p], &x)
            invariant
                0 <= p <= n,
                n == out@.len(),
                forall|j: int| 0 <= j < p ==> proc_le(sort, #[trigger] out@[j], x),
                le == proc_le_fn(sort),
            decreases n - p,
        {
            p = p + 1;
        }
        proof {
            lemma_ins_pos(le, x, out@);
            assert(crate::sorting::ins_pos(le, x, out@) == p as int) by {
                let ip = crate::sorting::ins_pos(le, x, out@);
                if ip < p as int {
                    assert(le(out@[ip], x));
                } else if ip > p as int {
                    assert(!le(out@[p as int], x));
                }
            }
        }
        let ghost before = out@;
        out.insert(p, x);
        proof {
            assert(out@ =~= before.take(p as int) + seq![x] + before.skip(p as int));
            assert(orig.take(k as int + 1).drop_last() =~= orig.take(k as int));
            assert(orig.take(k as int + 1).last() == orig[k as int]);
            assert(out@ == insert_le(le, x, before));
        }
        k = k + 1;
    }
    proof {
        assert(orig.take(k as int) =~= orig);
    }
    out
}

/// Re-sorting a list already strictly ascending by id with the descending
/// order yields the exact reverse sequence.
pub proof fn lemma_sort_pid_desc_reverse(s: Seq<Proc>)
    requires
        forall|i: int, j: int| 0 <= i < j < s.len() ==> #[trigger] s[i].pid < #[trigger] s[j].pid,
    ensures
        sort_by_le(proc_le_fn(ProcSortOrder::PidDsc), s) == s.reverse(),
{
    crate::sorting::lemma_sort_flip_reverse(
        proc_le_fn(ProcSortOrder::PidAsc),
        proc_le_fn(ProcSortOrder::PidDsc),
        s,
    );
}

/// Entries tied on the statistic keep their relative order, under the
/// ascending and the descending order alike.
pub proof fn lemma_sort_proc_stat_ties_stable(s: Seq<Proc>, sort: ProcSortOrder, k: int)
    requires
        sort == ProcSortOrder::StatAsc || sort == ProcSortOrder::StatDsc,
    ensures
        sort_by_le(proc_le_fn(sort), s).filter(|p: Proc| stat_key(p) == k) == s.filter(
            |p: Proc| stat_key(p) == k,
        ),
{
    lemma_proc_le_total(sort);
    crate::sorting::lemma_sort_by_le_stable(proc_le_fn(sort), s, |p: Proc| stat_key(p) == k);
}

/// Builds and sorts the process table from the per-process snapshots.
///
/// The entry for each id carries its resolved command and, where the
/// active statistic has a per-process analog, the extracted value with
/// kilobyte quantities scaled to bytes; without an analog every entry
/// reads zero.
pub fn load_procs(procs: &Vec<ProcData>, stat: &Stat, sort: ProcSortOrder) -> (r: Vec<Proc>)
    requires
        stat_wf(*stat),
    ensures
        exists|built: Seq<Proc>|
            #[trigger] procs_built(procs@, *stat, built) && r@ == sort_by_le(
                proc_le_fn(sort),
                built,
            ),
{
    let sp = get_file_processor(stat.proc_def());
    let n = procs.len();
    let mut built: Vec<Proc> = Vec::new();
    let mut i: usize = 0;
    while i < n
        invariant
            0 <= i <= n,
            n == procs@.len(),
            built@.len() == i,
            stat_wf(*stat),
            match sp {
                Some(p) => fp_wf(p) && fp_matches_def(p, stat.proc_def@) && parse_ok(
                    stat.proc_def@,
                ),
                None => !parse_ok(stat.proc_def@),
            },
            forall|j: int|
                0 <= j < i ==> proc_entry_matches(procs@[j], *stat, #[trigger] built@[j]),
        decreases n - i,
    {
        let pd = &procs[i];
        let cmd = build_cmd(&pd.dir);
        let stat_res: Result<usize, FileProcessorError> = match &sp {
            Some(p) => {
                let v = p.get_stat(&pd.dir);
                match stat.proc_stat_type() {
                    ProcStatType::MemQtyKb => match v {
                        Ok(x) => match x.checked_mul(1024) {
                            Some(y) => Ok(y),
                            None => Ok(usize::MAX),
                        },
                        Err(e) => Err(e),
                    },
                    ProcStatType::Absent => v,
                }
            }
            None => Ok(0),
        };
        let entry = Proc { pid: pd.pid, cmd, stat: stat_res };
        proof {
            assert(proc_entry_matches(procs@[i as int], *stat, entry));
        }
        built.push(entry);
        i = i + 1;
    }
    let ghost builtv = built@;
    let r = sort_procs(built, sort);
    proof {
        assert(procs_built(procs@, *stat, builtv));
    }
    r
}

} // verus!
