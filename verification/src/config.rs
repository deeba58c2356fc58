//! Configuration handling: key=value lines with `#` comments, the three
//! required values, and the classification of lines in the source-root and
//! exclusion list files.
//!
//! A configuration line yields the text before the first `=` as its key and
//! the text between the first and second `=` as its value, both trimmed of
//! blanks; lines starting with the comment mark, empty lines and lines
//! without `=` yield nothing.

use vstd::prelude::*;

use crate::bytes::bytes_equal;

verus! {

/// The byte that opens a comment line (a number sign).
pub const COMMENT_MARK: u8 = 35;

/// The byte separating a key from its value (an equals sign).
pub const EQUALS_MARK: u8 = 61;

/// Blank bytes trimmed from keys and values: space, tab, carriage return.
pub open spec fn is_blank(b: u8) -> bool {
    b == 32 || b == 9 || b == 13
}

fn is_blank_byte(b: u8) -> (r: bool)
    ensures
        r == is_blank(b),
{
    b == 32 || b == 9 || b == 13
}

/// The position of the first `c` at or after `i`, or the length when there
/// is none.
pub open spec fn first_index_from(s: Seq<u8>, c: u8, i: int) -> int
    decreases s.len() - i,
{
    if i < 0 || i >= s.len() {
        s.len() as int
    } else if s[i] == c {
        i
    } else {
        first_index_from(s, c, i + 1)
    }
}

proof fn lemma_first_index(s: Seq<u8>, c: u8, start: int, i: int)
    requires
        0 <= start <= i <= s.len(),
        forall|k: int| start <= k < i ==> s[k] != c,
        i == s.len() || s[i] == c,
    ensures
        first_index_from(s, c, start) == i,
    decreases i - start,
{
    if start < i {
        lemma_first_index(s, c, start + 1, i);
    }
}

fn find_byte_from(line: &Vec<u8>, c: u8, start: usize) -> (r: usize)
    requires
        start <= line@.len(),
    ensures
        r == first_index_from(line@, c, start as int),
        start <= r <= line@.len(),
        r < line@.len() ==> line@[r as int] == c,
{
    let mut i: usize = start;
    while i < line.len()
        invariant
            start <= i <= line@.len(),
            forall|k: int| start <= k < i ==> line@[k] != c,
        decreases line@.len() - i,
    {
        if line[i] == c {
            proof {
                lemma_first_index(line@, c, start as int, i as int);
            }
            return i;
        }
        i = i + 1;
    }
    proof {
        lemma_first_index(line@, c, start as int, line@.len() as int);
    }
    i
}

/// The sequence with its leading blanks removed.
pub open spec fn trim_front(s: Seq<u8>) -> Seq<u8>
    decreases s.len(),
{
    if s.len() > 0 && is_blank(s[0]) {
        trim_front(s.skip(1))
    } else {
        s
    }
}

/// The sequence with its trailing blanks removed.
pub open spec fn trim_back(s: Seq<u8>) -> Seq<u8>
    decreases s.len(),
{
    if s.len() > 0 && is_blank(s.last()) {
        trim_back(s.drop_last())
    } else {
        s
    }
}

/// The sequence with blanks removed from both ends.
pub open spec fn spec_trim(s: Seq<u8>) -> Seq<u8> {
    trim_back(trim_front(s))
}

proof fn lemma_trim_front(s: Seq<u8>, a: int)
    requires
        0 <= a <= s.len(),
        forall|k: int| 0 <= k < a ==> is_blank(s[k]),
        a == s.len() || !is_blank(s[a]),
    ensures
        trim_front(s) == s.skip(a),
    decreases a,
{
    if a == 0 {
        assert(s.skip(0) =~= s);
    } else {
        lemma_trim_front(s.skip(1), a - 1);
        assert(s.skip(1).skip(a - 1) =~= s.skip(a));
    }
}

proof fn lemma_trim_back(s: Seq<u8>, b: int)
    requires
        0 <= b <= s.len(),
        forall|k: int| b <= k < s.len() ==> is_blank(s[k]),
        b == 0 || !is_blank(s[b - 1]),
    ensures
        trim_back(s) == s.take(b),
    decreases s.len() - b,
{
    if b == s.len() {
        assert(s.take(b) =~= s);
    } else {
        lemma_trim_back(s.drop_last(), b);
        assert(s.drop_last().take(b) =~= s.take(b));
    }
}

/// Copy the slice `[lo, hi)` of `line` with blanks trimmed from both ends.
fn trim_range(line: &Vec<u8>, lo: usize, hi: usize) -> (r: Vec<u8>)
    requires
        lo <= hi <= line@.len(),
    ensures
        r@ == spec_trim(line@.subrange(lo as int, hi as int)),
{
    let mut a: usize = lo;
    while a < hi && is_blank_byte(line[a])
        invariant
            lo <= a <= hi <= line@.len(),
            forall|k: int| lo <= k < a ==> is_blank(line@[k]),
        decreases hi - a,
    {
        a = a + 1;
    }
    let mut b: usize = hi;
    while b > a && is_blank_byte(line[b - 1])
        invariant
            a <= b <= hi <= line@.len(),
            forall|k: int| b <= k < hi ==> is_blank(line@[k]),
        decreases b,
    {
        b = b - 1;
    }
    let mut r: Vec<u8> = Vec::new();
    let mut i: usize = a;
    while i < b
        invariant
            a <= i <= b <= line@.len(),
            r@ == line@.subrange(a as int, i as int),
        decreases b - i,
    {
        r.push(line[i]);
        assert(line@.subrange(a as int, i as int + 1) =~= line@.subrange(
            a as int,
            i as int,
        ).push(line@[i as int]));
        i = i + 1;
    }
    proof {
        let s = line@.subrange(lo as int, hi as int);
        lemma_trim_front(s, a - lo);
        let t = s.skip(a - lo);
        assert(t =~= line@.subrange(a as int, hi as int));
        lemma_trim_back(t, b - a);
        assert(t.take(b - a) =~= line@.subrange(a as int, b as int));
    }
    r
}

/// What a configuration line yields: nothing, or a trimmed key and value.
pub open spec fn spec_parse_line(line: Seq<u8>) -> Option<(Seq<u8>, Seq<u8>)> {
    if line.len() == 0 || line[0] == COMMENT_MARK {
        None
    } else {
        let i = first_index_from(line, EQUALS_MARK, 0);
        if i >= line.len() {
            None
        } else {
            let j = first_index_from(line, EQUALS_MARK, i + 1);
            Some((spec_trim(line.take(i)), spec_trim(line.subrange(i + 1, j))))
        }
    }
}

/// Split one configuration line into its trimmed key and value, if it
/// carries any.
pub fn parse_config_line(line: &Vec<u8>) -> (r: Option<(Vec<u8>, Vec<u8>)>)
    ensures
        r is Some <==> spec_parse_line(line@) is Some,
        r is Some ==> {
            let (k, v) = r->Some_0;
            let (sk, sv) = spec_parse_line(line@)->Some_0;
            k@ == sk && v@ == sv
        },
{
    if line.len() == 0 {
        return None;
    }
    if line[0] == COMMENT_MARK {
        return None;
    }
    let i = find_byte_from(line, EQUALS_MARK, 0);
    if i == line.len() {
        return None;
    }
    let j = find_byte_from(line, EQUALS_MARK, i + 1);
    let key = trim_range(line, 0, i);
    let value = trim_range(line, i + 1, j);
    assert(line@.subrange(0, i as int) =~= line@.take(i as int));
    Some((key, value))
}

/// The three required configuration keys.
#[derive(Clone, Copy, PartialEq, Eq, Structural, Debug)]
pub enum ConfigKey {
    BackupSource,
    ExcludeSource,
    BackupBaseLocation,
}

/// The spelling of the key naming the source-root list file.
pub open spec fn key_backup_source() -> Seq<u8> {
    seq![66u8, 97, 99, 107, 117, 112, 83, 111, 117, 114, 99, 101]
}

/// The spelling of the key naming the exclusion list file.
pub open spec fn key_exclude_source() -> Seq<u8> {
    seq![69u8, 120, 99, 108, 117, 100, 101, 83, 111, 117, 114, 99, 101]
}

/// The spelling of the key naming the target base directory.
pub open spec fn key_backup_base_location() -> Seq<u8> {
    seq![66u8, 97, 99, 107, 117, 112, 66, 97, 115, 101, 76, 111, 99, 97, 116, 105, 111, 110]
}

/// Which required key a parsed key spells, if any.
pub open spec fn spec_key_of(k: Seq<u8>) -> Option<ConfigKey> {
    if k == key_backup_source() {
        Some(ConfigKey::BackupSource)
    } else if k == key_exclude_source() {
        Some(ConfigKey::ExcludeSource)
    } else if k == key_backup_base_location() {
        Some(ConfigKey::BackupBaseLocation)
    } else {
        None
    }
}

fn backup_source_bytes() -> (v: Vec<u8>)
    ensures
        v@ == key_backup_source(),
{
    let v: Vec<u8> = vec![66u8, 97, 99, 107, 117, 112, 83, 111, 117, 114, 99, 101];
    assert(v@ =~= key_backup_source());
    v
}

fn exclude_source_bytes() -> (v: Vec<u8>)
    ensures
        v@ == key_exclude_source(),
{
    let v: Vec<u8> = vec![69u8, 120, 99, 108, 117, 100, 101, 83, 111, 117, 114, 99, 101];
    assert(v@ =~= key_exclude_source());
    v
}

fn backup_base_location_bytes() -> (v: Vec<u8>)
    ensures
        v@ == key_backup_base_location(),
{
    let v: Vec<u8> = vec![
        66u8,
        97,
        99,
        107,
        117,
        112,
        66,
        97,
        115,
        101,
        76,
        111,
        99,
        97,
        116,
        105,
        111,
        110,
    ];
    assert(v@ =~= key_backup_base_location());
    v
}

/// Recognize a parsed key as one of the required keys.
pub fn key_of(k: &Vec<u8>) -> (r: Option<ConfigKey>)
    ensures
        r == spec_key_of(k@),
{
    if bytes_equal(k, &backup_source_bytes()) {
        Some(ConfigKey::BackupSource)
    } else if bytes_equal(k, &exclude_source_bytes()) {
        Some(ConfigKey::ExcludeSource)
    } else if bytes_equal(k, &backup_base_location_bytes()) {
        Some(ConfigKey::BackupBaseLocation)
    } else {
        None
    }
}

/// The three configured values once the configuration file is read.
pub struct ConfigValues {
    pub backup_source: Vec<u8>,
    pub exclude_source: Vec<u8>,
    pub target_base: Vec<u8>,
}

/// The mathematical image of the configured values.
pub struct ConfigModel {
    pub backup_source: Seq<u8>,
    pub exclude_source: Seq<u8>,
    pub target_base: Seq<u8>,
}

impl View for ConfigValues {
    type V = ConfigModel;

    open spec fn view(&self) -> ConfigModel {
        ConfigModel {
            backup_source: self.backup_source@,
            exclude_source: self.exclude_source@,
            target_base: self.target_base@,
        }
    }
}

/// The configured values after reading one more line: a recognized key
/// replaces its value, everything else leaves the values alone.
pub open spec fn spec_apply_line(c: ConfigModel, line: Seq<u8>) -> ConfigModel {
    match spec_parse_line(line) {
        None => c,
        Some(kv) => match spec_key_of(kv.0) {
            Some(ConfigKey::BackupSource) => ConfigModel { backup_source: kv.1, ..c },
            Some(ConfigKey::ExcludeSource) => ConfigModel { exclude_source: kv.1, ..c },
            Some(ConfigKey::BackupBaseLocation) => ConfigModel { target_base: kv.1, ..c },
            None => c,
        },
    }
}

/// Why a run must stop before any enumeration: a required configuration
/// value is absent or empty.
#[derive(Clone, Copy, PartialEq, Eq, Structural, Debug)]
pub enum ConfigError {
    /// No source directory list was provided.
    MissingBackupSource,
    /// No exclude directory list was provided.
    MissingExcludeSource,
    /// No target directory base was provided.
    MissingTargetBase,
}

impl ConfigValues {
    /// All three values start empty.
    pub fn new() -> (c: ConfigValues)
        ensures
            c@.backup_source.len() == 0,
            c@.exclude_source.len() == 0,
            c@.target_base.len() == 0,
    {
        ConfigValues { backup_source: Vec::new(), exclude_source: Vec::new(), target_base: Vec::new() }
    }

    /// Fold one configuration line into the values.
    pub fn apply_line(&mut self, line: &Vec<u8>)
        ensures
            final(self)@ == spec_apply_line(old(self)@, line@),
    {
        match parse_config_line(line) {
            None => {
            },
            Some((k, v)) => {
                match key_of(&k) {
                    Some(ConfigKey::BackupSource) => {
                        self.backup_source = v;
                    },
                    Some(ConfigKey::ExcludeSource) => {
                        self.exclude_source = v;
                    },
                    Some(ConfigKey::BackupBaseLocation) => {
                        self.target_base = v;
                    },
                    None => {
                    },
                }
            },
        }
    }

    /// Check the three required values, reporting the first missing one in
    /// the order the run needs them. `Ok` exactly when all three are there.
    pub fn validate(&self) -> (r: Result<(), ConfigError>)
        ensures
            r is Ok <==> self@.backup_source.len() > 0 && self@.exclude_source.len() > 0
                && self@.target_base.len() > 0,
            r == Err::<(), ConfigError>(ConfigError::MissingBackupSource) <==> self@.backup_source.len() == 0,
            r == Err::<(), ConfigError>(ConfigError::MissingExcludeSource) <==> self@.backup_source.len() > 0
                && self@.exclude_source.len() == 0,
            r == Err::<(), ConfigError>(ConfigError::MissingTargetBase) <==> self@.backup_source.len() > 0
                && self@.exclude_source.len() > 0 && self@.target_base.len() == 0,
    {
        if self.backup_source.len() == 0 {
            Err(ConfigError::MissingBackupSource)
        } else if self.exclude_source.len() == 0 {
            Err(ConfigError::MissingExcludeSource)
        } else if self.target_base.len() == 0 {
            Err(ConfigError::MissingTargetBase)
        } else {
            Ok(())
        }
    }
}

/// A line of the source-root list that names a root: non-empty and not a
/// comment.
pub fn is_root_line(line: &Vec<u8>) -> (b: bool)
    ensures
        b == (line@.len() > 0 && line@[0] != COMMENT_MARK),
{
    line.len() > 0 && *line.first().unwrap() != COMMENT_MARK
}

/// A line of the exclusion list that names a prefix: every non-empty line
/// does.
pub fn is_exclusion_line(line: &Vec<u8>) -> (b: bool)
    ensures
        b == (line@.len() > 0),
{
    line.len() > 0
}

} // verus!
