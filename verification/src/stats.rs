//! The catalog of statistics the tool can display.  Each entry carries the
//! stat definition read per cgroup, its display labels, its aggregation
//! semantics, and, where one exists, the per-process analog read under
//! `/proc/<pid>` together with its unit.

use vstd::prelude::*;

use crate::file_proc::{
    is_col, lemma_count_def_parses, lemma_keyed_def_parses, lemma_single_def_parses, parse_ok,
};
use crate::text::{first_index, split_on, str_val};

verus! {

/// How a statistic aggregates over the cgroup tree: a cumulative memory
/// quantity (the kernel value already includes all descendants) or a plain
/// local count.
#[derive(Debug, Clone, Copy, PartialEq, Eq, Structural)]
pub enum StatType {
    MemQtyCumul,
    Qty,
}

/// Whether a statistic has a per-process analog, and its unit.
#[derive(Debug, Clone, Copy, PartialEq, Eq, Structural)]
pub enum ProcStatType {
    Absent,
    MemQtyKb,
}

/// One catalog entry.
pub struct Stat {
    pub def: String,
    pub short_desc: String,
    pub desc: String,
    pub stype: StatType,
    pub proc_def: String,
    pub proc_short_desc: String,
    pub proc_stype: ProcStatType,
}

/// An entry without a per-process analog carries no parsable per-process
/// definition, so the process lister never faces a value it has no unit
/// for.
pub open spec fn stat_wf(s: Stat) -> bool {
    s.proc_stype is Absent ==> !parse_ok(s.proc_def@)
}

impl Stat {
    /// Builds one catalog entry.
    pub fn new(
        def: &str,
        short_desc: &str,
        desc: &str,
        stype: StatType,
        proc_def: &str,
        proc_short_desc: &str,
        proc_stype: ProcStatType,
    ) -> (r: Stat)
        ensures
            r.def@ == def@,
            r.short_desc@ == short_desc@,
            r.desc@ == desc@,
            r.stype == stype,
            r.proc_def@ == proc_def@,
            r.proc_short_desc@ == proc_short_desc@,
            r.proc_stype == proc_stype,
    {
        Stat {
            def: String::from_str(def),
            short_desc: String::from_str(short_desc),
            desc: String::from_str(desc),
            stype,
            proc_def: String::from_str(proc_def),
            proc_short_desc: String::from_str(proc_short_desc),
            proc_stype,
        }
    }

    pub fn def(&self) -> (r: &str)
        ensures
            r@ == self.def@,
    {
        self.def.as_str()
    }

    pub fn short_desc(&self) -> (r: &str)
        ensures
            r@ == self.short_desc@,
    {
        self.short_desc.as_str()
    }

    pub fn desc(&self) -> (r: &str)
        ensures
            r@ == self.desc@,
    {
        self.desc.as_str()
    }

    pub fn stat_type(&self) -> (r: StatType)
        ensures
            r == self.stype,
    {
        self.stype
    }

    pub fn proc_def(&self) -> (r: &str)
        ensures
            r@ == self.proc_def@,
    {
        self.proc_def.as_str()
    }

    pub fn proc_short_desc(&self) -> (r: &str)
        ensures
            r@ == self.proc_short_desc@,
    {
        self.proc_short_desc.as_str()
    }

    pub fn proc_stat_type(&self) -> (r: ProcStatType)
        ensures
            r == self.proc_stype,
    {
        self.proc_stype
    }
}

/// A `memory.stat` keyed definition with match column 1, result column 2
/// and a non-empty separator-free token is recognized.
proof fn lemma_memstat_keyed_parses(tok: Seq<char>, s: Seq<char>)
    requires
        s == "memory.stat"@ + seq!['/'] + "="@ + seq!['/'] + "1"@ + seq!['/'] + tok + seq!['/']
            + "2"@,
        tok.len() > 0,
        forall|j: int| 0 <= j < tok.len() ==> #[trigger] tok[j] != '/',
    ensures
        parse_ok(s),
{
    reveal_strlit("memory.stat");
    reveal_strlit("=");
    reveal_strlit("1");
    reveal_strlit("2");
    assert(forall|j: int| 0 <= j < "memory.stat"@.len() ==> "memory.stat"@[j] != '/');
    assert(forall|j: int| 0 <= j < "1"@.len() ==> "1"@[j] != '/');
    assert(forall|j: int| 0 <= j < "2"@.len() ==> "2"@[j] != '/');
    assert(is_col("1"@)) by {
        assert("1"@ =~= seq!['1']);
        assert("1"@.drop_last() =~= Seq::<char>::empty());
        assert(str_val(Seq::<char>::empty()) == 0);
        assert('1' as int == 49);
    }
    assert(is_col("2"@)) by {
        assert("2"@ =~= seq!['2']);
        assert("2"@.drop_last() =~= Seq::<char>::empty());
        assert(str_val(Seq::<char>::empty()) == 0);
        assert('2' as int == 50);
    }
    lemma_keyed_def_parses("memory.stat"@, "1"@, tok, "2"@, s);
}

/// Every cgroup-side definition of the shipped catalog matches one of the
/// recognized shapes.
proof fn lemma_catalog_defs_parse()
    ensures
        parse_ok("memory.current"@),
        parse_ok("memory.swap.current"@),
        parse_ok("memory.stat/=/1/anon/2"@),
        parse_ok("memory.stat/=/1/file/2"@),
        parse_ok("memory.stat/=/1/kernel_stack/2"@),
        parse_ok("memory.stat/=/1/pagetables/2"@),
        parse_ok("memory.stat/=/1/percpu/2"@),
        parse_ok("memory.stat/=/1/sock/2"@),
        parse_ok("memory.stat/=/1/shmem/2"@),
        parse_ok("memory.stat/=/1/file_mapped/2"@),
        parse_ok("memory.stat/=/1/file_dirty/2"@),
        parse_ok("memory.stat/=/1/file_writeback/2"@),
        parse_ok("memory.stat/=/1/swapcached/2"@),
        parse_ok("memory.stat/=/1/unevictable/2"@),
        parse_ok("memory.stat/=/1/slab/2"@),
        parse_ok("cgroup.procs/#"@),
        parse_ok("cgroup.threads/#"@),
{
    reveal_strlit("memory.stat");
    reveal_strlit("=");
    reveal_strlit("1");
    reveal_strlit("2");
    reveal_strlit("memory.current");
    assert(forall|j: int| 0 <= j < "memory.current"@.len() ==> "memory.current"@[j] != '/');
    lemma_single_def_parses("memory.current"@);
    reveal_strlit("memory.swap.current");
    assert(forall|j: int|
        0 <= j < "memory.swap.current"@.len() ==> "memory.swap.current"@[j] != '/');
    lemma_single_def_parses("memory.swap.current"@);
    reveal_strlit("memory.stat/=/1/anon/2");
    reveal_strlit("anon");
    assert("memory.stat/=/1/anon/2"@ =~= "memory.stat"@ + seq!['/'] + "="@ + seq!['/'] + "1"@
        + seq!['/'] + "anon"@ + seq!['/'] + "2"@);
    assert(forall|j: int| 0 <= j < "anon"@.len() ==> "anon"@[j] != '/');
    lemma_memstat_keyed_parses("anon"@, "memory.stat/=/1/anon/2"@);
    reveal_strlit("memory.stat/=/1/file/2");
    reveal_strlit("file");
    assert("memory.stat/=/1/file/2"@ =~= "memory.stat"@ + seq!['/'] + "="@ + seq!['/'] + "1"@
        + seq!['/'] + "file"@ + seq!['/'] + "2"@);
    assert(forall|j: int| 0 <= j < "file"@.len() ==> "file"@[j] != '/');
    lemma_memstat_keyed_parses("file"@, "memory.stat/=/1/file/2"@);
    reveal_strlit("memory.stat/=/1/kernel_stack/2");
    reveal_strlit("kernel_stack");
    assert("memory.stat/=/1/kernel_stack/2"@ =~= "memory.stat"@ + seq!['/'] + "="@ + seq!['/'] + "1"@
        + seq!['/'] + "kernel_stack"@ + seq!['/'] + "2"@);
    assert(forall|j: int| 0 <= j < "kernel_stack"@.len() ==> "kernel_stack"@[j] != '/');
    lemma_memstat_keyed_parses("kernel_stack"@, "memory.stat/=/1/kernel_stack/2"@);
    reveal_strlit("memory.stat/=/1/pagetables/2");
    reveal_strlit("pagetables");
    assert("memory.stat/=/1/pagetables/2"@ =~= "memory.stat"@ + seq!['/'] + "="@ + seq!['/'] + "1"@
        + seq!['/'] + "pagetables"@ + seq!['/'] + "2"@);
    assert(forall|j: int| 0 <= j < "pagetables"@.len() ==> "pagetables"@[j] != '/');
    lemma_memstat_keyed_parses("pagetables"@, "memory.stat/=/1/pagetables/2"@);
    reveal_strlit("memory.stat/=/1/percpu/2");
    reveal_strlit("percpu");
    assert("memory.stat/=/1/percpu/2"@ =~= "memory.stat"@ + seq!['/'] + "="@ + seq!['/'] + "1"@
        + seq!['/'] + "percpu"@ + seq!['/'] + "2"@);
    assert(forall|j: int| 0 <= j < "percpu"@.len() ==> "percpu"@[j] != '/');
    lemma_memstat_keyed_parses("percpu"@, "memory.stat/=/1/percpu/2"@);
    reveal_strlit("memory.stat/=/1/sock/2");
    reveal_strlit("sock");
    assert("memory.stat/=/1/sock/2"@ =~= "memory.stat"@ + seq!['/'] + "="@ + seq!['/'] + "1"@
        + seq!['/'] + "sock"@ + seq!['/'] + "2"@);
    assert(forall|j: int| 0 <= j < "sock"@.len() ==> "sock"@[j] != '/');
    lemma_memstat_keyed_parses("sock"@, "memory.stat/=/1/sock/2"@);
    reveal_strlit("memory.stat/=/1/shmem/2");
    reveal_strlit("shmem");
    assert("memory.stat/=/1/shmem/2"@ =~= "memory.stat"@ + seq!['/'] + "="@ + seq!['/'] + "1"@
        + seq!['/'] + "shmem"@ + seq!['/'] + "2"@);
    assert(forall|j: int| 0 <= j < "shmem"@.len() ==> "shmem"@[j] != '/');
    lemma_memstat_keyed_parses("shmem"@, "memory.stat/=/1/shmem/2"@);
    reveal_strlit("memory.stat/=/1/file_mapped/2");
    reveal_strlit("file_mapped");
    assert("memory.stat/=/1/file_mapped/2"@ =~= "memory.stat"@ + seq!['/'] + "="@ + seq!['/'] + "1"@
        + seq!['/'] + "file_mapped"@ + seq!['/'] + "2"@);
    assert(forall|j: int| 0 <= j < "file_mapped"@.len() ==> "file_mapped"@[j] != '/');
    lemma_memstat_keyed_parses("file_mapped"@, "memory.stat/=/1/file_mapped/2"@);
    reveal_strlit("memory.stat/=/1/file_dirty/2");
    reveal_strlit("file_dirty");
    assert("memory.stat/=/1/file_dirty/2"@ =~= "memory.stat"@ + seq!['/'] + "="@ + seq!['/'] + "1"@
        + seq!['/'] + "file_dirty"@ + seq!['/'] + "2"@);
    assert(forall|j: int| 0 <= j < "file_dirty"@.len() ==> "file_dirty"@[j] != '/');
    lemma_memstat_keyed_parses("file_dirty"@, "memory.stat/=/1/file_dirty/2"@);
    reveal_strlit("memory.stat/=/1/file_writeback/2");
    reveal_strlit("file_writeback");
    assert("memory.stat/=/1/file_writeback/2"@ =~= "memory.stat"@ + seq!['/'] + "="@ + seq!['/'] + "1"@
        + seq!['/'] + "file_writeback"@ + seq!['/'] + "2"@);
    assert(forall|j: int| 0 <= j < "file_writeback"@.len() ==> "file_writeback"@[j] != '/');
    lemma_memstat_keyed_parses("file_writeback"@, "memory.stat/=/1/file_writeback/2"@);
    reveal_strlit("memory.stat/=/1/swapcached/2");
    reveal_strlit("swapcached");
    assert("memory.stat/=/1/swapcached/2"@ =~= "memory.stat"@ + seq!['/'] + "="@ + seq!['/'] + "1"@
        + seq!['/'] + "swapcached"@ + seq!['/'] + "2"@);
    assert(forall|j: int| 0 <= j < "swapcached"@.len() ==> "swapcached"@[j] != '/');
    lemma_memstat_keyed_parses("swapcached"@, "memory.stat/=/1/swapcached/2"@);
    reveal_strlit("memory.stat/=/1/unevictable/2");
    reveal_strlit("unevictable");
    assert("memory.stat/=/1/unevictable/2"@ =~= "memory.stat"@ + seq!['/'] + "="@ + seq!['/'] + "1"@
        + seq!['/'] + "unevictable"@ + seq!['/'] + "2"@);
    assert(forall|j: int| 0 <= j < "unevictable"@.len() ==> "unevictable"@[j] != '/');
    lemma_memstat_keyed_parses("unevictable"@, "memory.stat/=/1/unevictable/2"@);
    reveal_strlit("memory.stat/=/1/slab/2");
    reveal_strlit("slab");
    assert("memory.stat/=/1/slab/2"@ =~= "memory.stat"@ + seq!['/'] + "="@ + seq!['/'] + "1"@
        + seq!['/'] + "slab"@ + seq!['/'] + "2"@);
    assert(forall|j: int| 0 <= j < "slab"@.len() ==> "slab"@[j] != '/');
    lemma_memstat_keyed_parses("slab"@, "memory.stat/=/1/slab/2"@);
    reveal_strlit("cgroup.procs/#");
    reveal_strlit("cgroup.procs");
    assert("cgroup.procs/#"@ =~= "cgroup.procs"@ + seq!['/'] + "#"@) by {
        reveal_strlit("#");
    }
    assert(forall|j: int| 0 <= j < "cgroup.procs"@.len() ==> "cgroup.procs"@[j] != '/');
    lemma_count_def_parses("cgroup.procs"@, "cgroup.procs/#"@);
    reveal_strlit("cgroup.threads/#");
    reveal_strlit("cgroup.threads");
    assert("cgroup.threads/#"@ =~= "cgroup.threads"@ + seq!['/'] + "#"@) by {
        reveal_strlit("#");
    }
    assert(forall|j: int| 0 <= j < "cgroup.threads"@.len() ==> "cgroup.threads"@[j] != '/');
    lemma_count_def_parses("cgroup.threads"@, "cgroup.threads/#"@);
}

/// An empty definition string is not a recognized stat definition.
proof fn lemma_empty_def_unrecognized()
    ensures
        !parse_ok(Seq::<char>::empty()),
{
    let s = Seq::<char>::empty();
    assert(first_index(s, '/') == -1);
    assert(split_on(s, '/') =~= seq![s]);
}

/// Builds an entry without a per-process analog.
fn new_cgroup_only(def: &str, short_desc: &str, desc: &str, stype: StatType) -> (r: Stat)
    ensures
        r.def@ == def@,
        r.short_desc@ == short_desc@,
        r.desc@ == desc@,
        r.stype == stype,
        r.proc_stype is Absent,
        stat_wf(r),
{
    let r = Stat::new(def, short_desc, desc, stype, "", "", ProcStatType::Absent);
    proof {
        reveal_strlit("");
        assert(""@ =~= Seq::<char>::empty());
        lemma_empty_def_unrecognized();
    }
    r
}

/// The ordered stat catalog.  Every entry is well formed and every
/// cgroup-side definition matches a recognized shape.
pub fn stats() -> (r: Vec<Stat>)
    ensures
        r@.len() == 17,
        forall|i: int| 0 <= i < r@.len() ==> stat_wf(#[trigger] r@[i]),
        forall|i: int| 0 <= i < r@.len() ==> parse_ok((#[trigger] r@[i]).def@),
{
    proof {
        lemma_catalog_defs_parse();
    }
    let mut v: Vec<Stat> = Vec::new();
    v.push(
        Stat::new(
            "memory.current",
            "Current Total",
            "Current total memory usage including descendents",
            StatType::MemQtyCumul,
            "status/=/1/VmRSS:/2",
            "RSS",
            ProcStatType::MemQtyKb,
        ),
    );
    v.push(
        Stat::new(
            "memory.swap.current",
            "Current Swap",
            "Current total swap usage including descendents",
            StatType::MemQtyCumul,
            "status/=/1/VmSwap:/2",
            "Swap",
            ProcStatType::MemQtyKb,
        ),
    );
    v.push(
        Stat::new(
            "memory.stat/=/1/anon/2",
            "Anonymous",
            "Amount of memory used in anonymous mappings.",
            StatType::MemQtyCumul,
            "status/=/1/RssAnon:/2",
            "Anonymous",
            ProcStatType::MemQtyKb,
        ),
    );
    v.push(
        new_cgroup_only(
            "memory.stat/=/1/file/2",
            "File Cache",
            "Amount of memory used to cache filesystem data, including tmpfs and shared memory.",
            StatType::MemQtyCumul,
        ),
    );
    v.push(
        new_cgroup_only(
            "memory.stat/=/1/kernel_stack/2",
            "Kernel Stack",
            "Amount of memory allocated to kernel stacks.",
            StatType::MemQtyCumul,
        ),
    );
    v.push(
        Stat::new(
            "memory.stat/=/1/pagetables/2",
            "Page Table",
            "Amount of memory used for page tables.",
            StatType::MemQtyCumul,
            "status/=/1/VmPTE:/2",
            "VM PTE",
            ProcStatType::MemQtyKb,
        ),
    );
    v.push(
        new_cgroup_only(
            "memory.stat/=/1/percpu/2",
            "Per CPU",
            "Amount of memory used for per-cpu data structures.",
            StatType::MemQtyCumul,
        ),
    );
    v.push(
        new_cgroup_only(
            "memory.stat/=/1/sock/2",
            "Socket",
            "Amount of memory used in network transmission buffers.",
            StatType::MemQtyCumul,
        ),
    );
    v.push(
        Stat::new(
            "memory.stat/=/1/shmem/2",
            "Swap Backed",
            "Amount of cached filesystem data that is swap-backed.",
            StatType::MemQtyCumul,
            "status/=RssShmem:/2",
            "RSS ShMem",
            ProcStatType::MemQtyKb,
        ),
    );
    v.push(
        Stat::new(
            "memory.stat/=/1/file_mapped/2",
            "File Mapped",
            "Amount of cached filesystem data mapped.",
            StatType::MemQtyCumul,
            "status/=/1/RssFile:/2",
            "RSS File",
            ProcStatType::MemQtyKb,
        ),
    );
    v.push(
        new_cgroup_only(
            "memory.stat/=/1/file_dirty/2",
            "File Dirty",
            "Amount of cached filesystem data that was modified but not yet written back to disk.",
            StatType::MemQtyCumul,
        ),
    );
    v.push(
        new_cgroup_only(
            "memory.stat/=/1/file_writeback/2",
            "File Writeback",
            "Amount of cached filesystem data that was modified and is currently being written back to disk",
            StatType::MemQtyCumul,
        ),
    );
    v.push(
        new_cgroup_only(
            "memory.stat/=/1/swapcached/2",
            "Swap Cached",
            "Amount of memory cached in swap.",
            StatType::MemQtyCumul,
        ),
    );
    v.push(
        Stat::new(
            "memory.stat/=/1/unevictable/2",
            "Unevictable",
            "Amount of unevictable memory.",
            StatType::MemQtyCumul,
            "status/=/1/VmPin:/2",
            "VM Pin",
            ProcStatType::MemQtyKb,
        ),
    );
    v.push(
        new_cgroup_only(
            "memory.stat/=/1/slab/2",
            "Slab",
            "Amount of memory used for storing in-kernel data structures.",
            StatType::MemQtyCumul,
        ),
    );
    v.push(
        new_cgroup_only("cgroup.procs/#", "Processes", "Number of processes.", StatType::Qty),
    );
    v.push(
        new_cgroup_only("cgroup.threads/#", "Threads", "Number of threads.", StatType::Qty),
    );
    v
}

} // verus!
