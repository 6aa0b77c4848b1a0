//! Stat definitions and value extractors.
//!
//! A stat definition is a declarative string that names a pseudo-file and
//! how to pull a value out of it: the whole first line (`file`), one column
//! of the first line whose match column equals a match value
//! (`file/=/<matchcol>/<matchval>/<retcol>`, columns counted from 1), or
//! the number of lines (`file/#`).  `get_file_processor` compiles such a
//! string into a `FileProcessor`; extraction runs over a directory
//! snapshot.

use vstd::prelude::*;

use crate::fsdata::{find_file, FsDir};
use crate::text::{
    all_digits, dec_rep, lemma_chars_cmp_props, parse_usize, split_on,
    split_sep, str_cmp, str_val, usize_to_string, ws_split,
};

verus! {

/// Why an extraction failed: the file could not be read, the value was not
/// there, or the value was not a valid number.
#[derive(Debug)]
pub enum FileProcessorError {
    IoError(String),
    ValueNotFound,
    ParseError(String),
}

/// The message a file lookup yields when the snapshot holds no file of the
/// requested name.
pub open spec fn missing_file_msg() -> Seq<char> {
    "No such file"@
}

/// The display message of each error.
pub open spec fn error_msg(e: FileProcessorError) -> Seq<char> {
    match e {
        FileProcessorError::IoError(m) => m@,
        FileProcessorError::ValueNotFound => "No value found"@,
        FileProcessorError::ParseError(_) => "Invalid number"@,
    }
}

impl FileProcessorError {
    /// The message shown for this error.
    pub fn message(&self) -> (r: String)
        ensures
            r@ == error_msg(*self),
    {
        match self {
            FileProcessorError::IoError(m) => {
                let r = String::from_str(m.as_str());
                r
            }
            FileProcessorError::ValueNotFound => String::from_str("No value found"),
            FileProcessorError::ParseError(_) => String::from_str("Invalid number"),
        }
    }
}

/// The outcome of extracting a string value, at the specification level.
pub enum ExtractRes {
    Value(Seq<char>),
    Io(Seq<char>),
    NotFound,
}

/// The outcome of extracting a numeric value, at the specification level.
pub enum StatRes {
    Num(int),
    Io(Seq<char>),
    NotFound,
    Parse(Seq<char>),
}

/// Whether an executable extraction result realizes a specification-level
/// outcome.
pub open spec fn res_matches(e: ExtractRes, r: Result<String, FileProcessorError>) -> bool {
    match e {
        ExtractRes::Value(v) => match r {
            Ok(s) => s@ == v,
            Err(_) => false,
        },
        ExtractRes::Io(m) => match r {
            Err(FileProcessorError::IoError(x)) => x@ == m,
            _ => false,
        },
        ExtractRes::NotFound => r matches Err(FileProcessorError::ValueNotFound),
    }
}

/// Whether an executable numeric result realizes a specification-level
/// outcome.
pub open spec fn stat_matches(e: StatRes, r: Result<usize, FileProcessorError>) -> bool {
    match e {
        StatRes::Num(n) => match r {
            Ok(v) => v as int == n,
            Err(_) => false,
        },
        StatRes::Io(m) => match r {
            Err(FileProcessorError::IoError(x)) => x@ == m,
            _ => false,
        },
        StatRes::NotFound => r matches Err(FileProcessorError::ValueNotFound),
        StatRes::Parse(v) => match r {
            Err(FileProcessorError::ParseError(x)) => x@ == v,
            _ => false,
        },
    }
}

/// The lines of the named file of the snapshot, or the message of the read
/// failure.
pub open spec fn lookup_lines(d: FsDir, name: Seq<char>) -> Result<Seq<Seq<char>>, Seq<char>> {
    match find_file(d.files@, name) {
        None => Err(missing_file_msg()),
        Some(f) => match f.content {
            Ok(lines) => Ok(lines.deep_view()),
            Err(m) => Err(m@),
        },
    }
}

/// The numeric reading of a string extraction: a non-empty all-digit value
/// that fits in `usize`, or a parse failure.
pub open spec fn stat_of(e: ExtractRes) -> StatRes {
    match e {
        ExtractRes::Io(m) => StatRes::Io(m),
        ExtractRes::NotFound => StatRes::NotFound,
        ExtractRes::Value(v) => if v.len() > 0 && all_digits(v) && str_val(v) <= usize::MAX as int {
            StatRes::Num(str_val(v))
        } else {
            StatRes::Parse(v)
        },
    }
}

/// Reads the named file of the snapshot.
fn read_lines<'a>(dir: &'a FsDir, file: &Option<String>) -> (r: Result<
    &'a Vec<String>,
    FileProcessorError,
>)
    ensures
        match lookup_lines(*dir, target_of(*file)) {
            Ok(lines) => r matches Ok(v) && v.deep_view() == lines,
            Err(m) => (r matches Err(FileProcessorError::IoError(x)) && x@ == m),
        },
{
    let name: &str = match file {
        Some(f) => f.as_str(),
        None => "",
    };
    proof {
        reveal_strlit("");
        assert(""@ =~= Seq::<char>::empty());
    }
    match dir.file(name) {
        None => Err(FileProcessorError::IoError(String::from_str("No such file"))),
        Some(f) => match &f.content {
            Ok(lines) => Ok(lines),
            Err(m) => Err(FileProcessorError::IoError(String::from_str(m.as_str()))),
        },
    }
}

/// Reads the named file of the snapshot, the failure as a plain message.
pub(crate) fn read_file_lines<'a>(dir: &'a FsDir, name: &str) -> (r: Result<
    &'a Vec<String>,
    String,
>)
    ensures
        match lookup_lines(*dir, name@) {
            Ok(lines) => r matches Ok(v) && v.deep_view() == lines,
            Err(m) => (r matches Err(s) && s@ == m),
        },
{
    match dir.file(name) {
        None => Err(String::from_str("No such file")),
        Some(f) => match &f.content {
            Ok(lines) => Ok(lines),
            Err(m) => Err(String::from_str(m.as_str())),
        },
    }
}

/// The file a processor reads, as a character sequence; an unset file reads
/// as the empty name, which no snapshot file carries.
pub open spec fn target_of(file: Option<String>) -> Seq<char> {
    match file {
        Some(f) => f@,
        None => Seq::empty(),
    }
}

/// Extracts the first line of a file.
pub struct SingleValueProcessor {
    pub file: Option<String>,
}

/// What single-value extraction yields: the first line, `NotFound` for an
/// empty file.
pub open spec fn sv_extract(p: SingleValueProcessor, d: FsDir) -> ExtractRes {
    match lookup_lines(d, target_of(p.file)) {
        Err(m) => ExtractRes::Io(m),
        Ok(lines) => if lines.len() == 0 {
            ExtractRes::NotFound
        } else {
            ExtractRes::Value(lines[0])
        },
    }
}

impl SingleValueProcessor {
    pub fn new() -> (r: Self)
        ensures
            r.file is None,
    {
        SingleValueProcessor { file: None }
    }

    pub fn set_file(&mut self, file: &str)
        ensures
            final(self).file matches Some(f) && f@ == file@,
    {
        self.file = Some(String::from_str(file));
    }

    pub fn get_value(&self, dir: &FsDir) -> (r: Result<String, FileProcessorError>)
        ensures
            res_matches(sv_extract(*self, *dir), r),
    {
        match read_lines(dir, &self.file) {
            Err(e) => Err(e),
            Ok(lines) => {
                if lines.len() == 0 {
                    Err(FileProcessorError::ValueNotFound)
                } else {
                    proof {
                        assert(lines.deep_view()[0] == lines@[0]@);
                    }
                    Ok(String::from_str(lines[0].as_str()))
                }
            }
        }
    }
}

/// Extracts one column of the first line whose match column equals the
/// match value; columns are counted from 1.
pub struct KeyedProcessor {
    pub file: Option<String>,
    pub match_col: usize,
    pub match_val: String,
    pub ret_col: usize,
}

/// Scans lines for the first that has a column `mc` (1-based) equal to
/// `mv`; yields column `rc` of that line, `NotFound` if the matched line
/// is too short for `rc`, and `NotFound` when no line matches.  Lines with
/// fewer columns than the match column are skipped.
pub open spec fn keyed_scan(lines: Seq<Seq<char>>, mc: int, mv: Seq<char>, rc: int) -> ExtractRes
    decreases lines.len(),
{
    if lines.len() == 0 {
        ExtractRes::NotFound
    } else {
        let cols = ws_split(lines[0]);
        if mc <= cols.len() && cols[mc - 1] == mv {
            if rc > cols.len() {
                ExtractRes::NotFound
            } else {
                ExtractRes::Value(cols[rc - 1])
            }
        } else {
            keyed_scan(lines.drop_first(), mc, mv, rc)
        }
    }
}

/// What keyed extraction yields over the snapshot.
pub open spec fn keyed_extract(p: KeyedProcessor, d: FsDir) -> ExtractRes {
    match lookup_lines(d, target_of(p.file)) {
        Err(m) => ExtractRes::Io(m),
        Ok(lines) => keyed_scan(lines, p.match_col as int, p.match_val@, p.ret_col as int),
    }
}

impl KeyedProcessor {
    pub fn new(match_col: usize, match_val: &str, ret_col: usize) -> (r: Self)
        ensures
            r.file is None,
            r.match_col == match_col,
            r.match_val@ == match_val@,
            r.ret_col == ret_col,
    {
        KeyedProcessor {
            file: None,
            match_col,
            match_val: String::from_str(match_val),
            ret_col,
        }
    }

    pub fn set_file(&mut self, file: &str)
        ensures
            final(self).file matches Some(f) && f@ == file@,
            final(self).match_col == old(self).match_col,
            final(self).match_val == old(self).match_val,
            final(self).ret_col == old(self).ret_col,
    {
        self.file = Some(String::from_str(file));
    }

    pub fn get_value(&self, dir: &FsDir) -> (r: Result<String, FileProcessorError>)
        requires
            self.match_col >= 1,
            self.ret_col >= 1,
        ensures
            res_matches(keyed_extract(*self, *dir), r),
    {
        let lines = match read_lines(dir, &self.file) {
            Err(e) => {
                return Err(e);
            }
            Ok(lines) => lines,
        };
        let n = lines.len();
        let mut i: usize = 0;
        proof {
            assert(lines.deep_view().skip(0) =~= lines.deep_view());
        }
        while i < n
            invariant
                0 <= i <= n,
                n == lines@.len(),
                lines.deep_view().len() == n,
                self.match_col >= 1,
                self.ret_col >= 1,
                lookup_lines(*dir, target_of(self.file)) matches Ok(l) && l == lines.deep_view(),
                keyed_scan(
                    lines.deep_view(),
                    self.match_col as int,
                    self.match_val@,
                    self.ret_col as int,
                ) == keyed_scan(
                    lines.deep_view().skip(i as int),
                    self.match_col as int,
                    self.match_val@,
                    self.ret_col as int,
                ),
            decreases n - i,
        {
            let cols = crate::text::split_ws(lines[i].as_str());
            proof {
                assert(lines.deep_view().skip(i as int)[0] == lines.deep_view()[i as int]);
                assert(lines.deep_view()[i as int] == lines@[i as int]@);
                assert(cols.deep_view().len() == cols@.len());
            }
            if self.match_col <= cols.len() && str_cmp(
                cols[self.match_col - 1].as_str(),
                self.match_val.as_str(),
            ) == 0 {
                proof {
                    lemma_chars_cmp_props(
                        cols.deep_view()[self.match_col - 1],
                        self.match_val@,
                    );
                    assert(cols.deep_view()[self.match_col - 1] == cols@[
                        self.match_col - 1
                    ]@);
                }
                if self.ret_col > cols.len() {
                    return Err(FileProcessorError::ValueNotFound);
                } else {
                    proof {
                        assert(cols.deep_view()[self.ret_col - 1] == cols@[
                            self.ret_col - 1
                        ]@);
                    }
                    return Ok(String::from_str(cols[self.ret_col - 1].as_str()));
                }
            }
            proof {
                if self.match_col <= cols@.len() {
                    assert(cols.deep_view()[self.match_col as int - 1] == cols@[
                        self.match_col - 1
                    ]@);
                    lemma_chars_cmp_props(
                        cols.deep_view().index(self.match_col as int - 1),
                        self.match_val@,
                    );
                }
                assert(lines.deep_view().skip(i as int).drop_first() =~= lines.deep_view().skip(
                    i + 1,
                ));
            }
            i = i + 1;
        }
        proof {
            assert(lines.deep_view().skip(n as int) =~= Seq::<Seq<char>>::empty());
        }
        Err(FileProcessorError::ValueNotFound)
    }
}

/// Extracts the number of lines of a file.
pub struct CountProcessor {
    pub file: Option<String>,
}

/// What line counting yields: the count written in decimal.
pub open spec fn count_extract(p: CountProcessor, d: FsDir) -> ExtractRes {
    match lookup_lines(d, target_of(p.file)) {
        Err(m) => ExtractRes::Io(m),
        Ok(lines) => ExtractRes::Value(dec_rep(lines.len() as int)),
    }
}

impl CountProcessor {
    pub fn new() -> (r: Self)
        ensures
            r.file is None,
    {
        CountProcessor { file: None }
    }

    pub fn set_file(&mut self, file: &str)
        ensures
            final(self).file matches Some(f) && f@ == file@,
    {
        self.file = Some(String::from_str(file));
    }

    pub fn get_value(&self, dir: &FsDir) -> (r: Result<String, FileProcessorError>)
        ensures
            res_matches(count_extract(*self, *dir), r),
    {
        match read_lines(dir, &self.file) {
            Err(e) => Err(e),
            Ok(lines) => Ok(usize_to_string(lines.len())),
        }
    }
}

/// One compiled stat definition: the three extraction strategies behind one
/// extraction interface.
pub enum FileProcessor {
    Single(SingleValueProcessor),
    Keyed(KeyedProcessor),
    Count(CountProcessor),
}

/// Column indices of a keyed processor are 1-based and nonzero.
pub open spec fn fp_wf(p: FileProcessor) -> bool {
    match p {
        FileProcessor::Keyed(k) => k.match_col >= 1 && k.ret_col >= 1,
        _ => true,
    }
}

/// What extraction yields for each strategy.
pub open spec fn fp_extract(p: FileProcessor, d: FsDir) -> ExtractRes {
    match p {
        FileProcessor::Single(sv) => sv_extract(sv, d),
        FileProcessor::Keyed(k) => keyed_extract(k, d),
        FileProcessor::Count(c) => count_extract(c, d),
    }
}

/// What numeric extraction yields: the string value read as a number.
pub open spec fn fp_stat(p: FileProcessor, d: FsDir) -> StatRes {
    stat_of(fp_extract(p, d))
}

impl FileProcessor {
    /// Extracts the string value from the snapshot.
    pub fn get_value(&self, dir: &FsDir) -> (r: Result<String, FileProcessorError>)
        requires
            fp_wf(*self),
        ensures
            res_matches(fp_extract(*self, *dir), r),
    {
        match self {
            FileProcessor::Single(sv) => sv.get_value(dir),
            FileProcessor::Keyed(k) => k.get_value(dir),
            FileProcessor::Count(c) => c.get_value(dir),
        }
    }

    /// Extracts the value and reads it as an unsigned number.
    pub fn get_stat(&self, dir: &FsDir) -> (r: Result<usize, FileProcessorError>)
        requires
            fp_wf(*self),
        ensures
            stat_matches(fp_stat(*self, *dir), r),
    {
        match self.get_value(dir) {
            Err(e) => Err(e),
            Ok(v) => match parse_usize(v.as_str()) {
                Some(n) => Ok(n),
                None => Err(FileProcessorError::ParseError(v)),
            },
        }
    }

    /// The name of the file this processor reads, if one is set.
    pub fn file_name(&self) -> (r: Option<&String>)
        ensures
            match r {
                Some(f) => f@ == target_of(self.file_of()) && self.file_of() is Some,
                None => self.file_of() is None,
            },
    {
        match self {
            FileProcessor::Single(sv) => sv.file.as_ref(),
            FileProcessor::Keyed(k) => k.file.as_ref(),
            FileProcessor::Count(c) => c.file.as_ref(),
        }
    }

    /// The file field of the underlying strategy.
    pub open spec fn file_of(&self) -> Option<String> {
        match self {
            FileProcessor::Single(sv) => sv.file,
            FileProcessor::Keyed(k) => k.file,
            FileProcessor::Count(c) => c.file,
        }
    }
}

/// The segments of a stat definition.
pub open spec fn def_segs(s: Seq<char>) -> Seq<Seq<char>> {
    split_on(s, '/')
}

/// A valid column index: a non-empty digit string worth at least 1 that
/// fits in `usize`.
pub open spec fn is_col(s: Seq<char>) -> bool {
    s.len() > 0 && all_digits(s) && 1 <= str_val(s) <= usize::MAX as int
}

/// The recognized stat definition shapes: one segment (single value), five
/// segments with `=` second (keyed column, both columns valid and the
/// match value non-empty), or two segments with `#` second (line count).
pub open spec fn parse_ok(s: Seq<char>) -> bool {
    let segs = def_segs(s);
    segs[0].len() > 0 && (segs.len() == 1 || (segs.len() == 5 && segs[1] == "="@ && is_col(segs[2])
        && segs[3].len() > 0 && is_col(segs[4])) || (segs.len() == 2 && segs[1] == "#"@))
}

/// Whether a compiled processor realizes the definition's segments.
pub open spec fn fp_matches_def(p: FileProcessor, s: Seq<char>) -> bool {
    let segs = def_segs(s);
    match p {
        FileProcessor::Single(sv) => segs.len() == 1 && target_of(sv.file) == segs[0],
        FileProcessor::Keyed(k) => segs.len() == 5 && target_of(k.file) == segs[0] && k.match_col
            as int == str_val(segs[2]) && k.match_val@ == segs[3] && k.ret_col as int == str_val(
            segs[4],
        ),
        FileProcessor::Count(c) => segs.len() == 2 && target_of(c.file) == segs[0],
    }
}


/// A non-empty file name without separators is a recognized single-value
/// definition.
pub proof fn lemma_single_def_parses(file: Seq<char>)
    requires
        file.len() > 0,
        forall|j: int| 0 <= j < file.len() ==> #[trigger] file[j] != '/',
    ensures
        parse_ok(file),
{
    crate::text::lemma_split_on_whole(file, '/');
    assert(def_segs(file) == seq![file]);
}

/// A non-empty separator-free file name followed by `/#` is a recognized
/// line-count definition.
pub proof fn lemma_count_def_parses(file: Seq<char>, s: Seq<char>)
    requires
        s == file + seq!['/'] + "#"@,
        file.len() > 0,
        forall|j: int| 0 <= j < file.len() ==> #[trigger] file[j] != '/',
    ensures
        parse_ok(s),
{
    reveal_strlit("#");
    assert(forall|j: int| 0 <= j < "#"@.len() ==> "#"@[j] != '/');
    crate::text::lemma_split_on_prepend(file, "#"@, '/');
    crate::text::lemma_split_on_whole("#"@, '/');
    assert(def_segs(s) =~= seq![file, "#"@]);
}

/// Five separator-free segments around `=`, with valid column numbers and
/// a non-empty match value, are a recognized keyed-column definition.
pub proof fn lemma_keyed_def_parses(
    file: Seq<char>,
    mc: Seq<char>,
    mv: Seq<char>,
    rc: Seq<char>,
    s: Seq<char>,
)
    requires
        s == file + seq!['/'] + "="@ + seq!['/'] + mc + seq!['/'] + mv + seq!['/'] + rc,
        file.len() > 0,
        mv.len() > 0,
        forall|j: int| 0 <= j < file.len() ==> #[trigger] file[j] != '/',
        forall|j: int| 0 <= j < mc.len() ==> #[trigger] mc[j] != '/',
        forall|j: int| 0 <= j < mv.len() ==> #[trigger] mv[j] != '/',
        forall|j: int| 0 <= j < rc.len() ==> #[trigger] rc[j] != '/',
        is_col(mc),
        is_col(rc),
    ensures
        parse_ok(s),
{
    reveal_strlit("=");
    assert(forall|j: int| 0 <= j < "="@.len() ==> "="@[j] != '/');
    let t3 = mv + seq!['/'] + rc;
    let t2 = mc + seq!['/'] + t3;
    let t1 = "="@ + seq!['/'] + t2;
    assert(s =~= file + seq!['/'] + t1);
    crate::text::lemma_split_on_prepend(file, t1, '/');
    crate::text::lemma_split_on_prepend("="@, t2, '/');
    crate::text::lemma_split_on_prepend(mc, t3, '/');
    crate::text::lemma_split_on_prepend(mv, rc, '/');
    crate::text::lemma_split_on_whole(rc, '/');
    assert(def_segs(s) =~= seq![file, "="@, mc, mv, rc]);
}

/// Compiles a stat definition string.  Succeeds exactly on the recognized
/// shapes and yields the processor the segments describe.
pub fn get_file_processor(def: &str) -> (r: Option<FileProcessor>)
    ensures
        (r is Some) == parse_ok(def@),
        r matches Some(p) ==> fp_wf(p) && fp_matches_def(p, def@),
{
    let split = split_sep(def, '/');
    proof {
        reveal_strlit("=");
        reveal_strlit("#");
        assert("="@ != "#"@) by {
            assert("="@[0] == '=' && "#"@[0] == '#');
        }
        assert(split.deep_view().len() == split@.len());
        assert(def_segs(def@).len() > 0);
    }
    if split[0].as_str().unicode_len() == 0 {
        proof {
            assert(split.deep_view()[0] == split@[0]@);
        }
        return None;
    }
    proof {
        assert(split.deep_view()[0] == split@[0]@);
    }
    if split.len() == 1 {
        let mut proc = SingleValueProcessor::new();
        proc.set_file(split[0].as_str());
        return Some(FileProcessor::Single(proc));
    }
    proof {
        assert(split.deep_view()[1] == split@[1]@);
    }
    if str_cmp(split[1].as_str(), "=") == 0 {
        proof {
            lemma_chars_cmp_props(split@[1]@, "="@);
        }
        if split.len() != 5 || split[3].as_str().unicode_len() == 0 {
            proof {
                if split@.len() == 5 {
                    assert(split.deep_view()[3] == split@[3]@);
                }
            }
            return None;
        }
        proof {
            assert(split.deep_view()[2] == split@[2]@);
            assert(split.deep_view()[3] == split@[3]@);
            assert(split.deep_view()[4] == split@[4]@);
        }
        let match_col = parse_usize(split[2].as_str());
        let ret_col = parse_usize(split[4].as_str());
        let (mc, rc) = match (match_col, ret_col) {
            (Some(m), Some(r)) => (m, r),
            _ => {
                return None;
            }
        };
        if mc == 0 || rc == 0 {
            return None;
        }
        let mut proc = KeyedProcessor::new(mc, split[3].as_str(), rc);
        proc.set_file(split[0].as_str());
        return Some(FileProcessor::Keyed(proc));
    }
    if str_cmp(split[1].as_str(), "#") == 0 {
        proof {
            lemma_chars_cmp_props(split@[1]@, "#"@);
        }
        if split.len() != 2 {
            return None;
        }
        let mut proc = CountProcessor::new();
        proc.set_file(split[0].as_str());
        return Some(FileProcessor::Count(proc));
    }
    proof {
        lemma_chars_cmp_props(split@[1]@, "="@);
        lemma_chars_cmp_props(split@[1]@, "#"@);
    }
    None
}

} // verus!
