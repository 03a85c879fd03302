//! Plain values that git hands out.
pub mod reflog;
pub mod remotes;
pub mod status;
pub mod tree;

use crate::text::{self, string_of_range};
use vstd::prelude::*;

verus! {

/// The object id of a commit: its first 128 bits and its last 32.
#[derive(Clone, Copy, Debug, PartialEq, Eq, Hash, Structural)]
pub struct CommitId {
    pub high: u128,
    pub low: u32,
}

/// A lower-case hexadecimal digit.
pub open spec fn hex_digit(n: int) -> char {
    if n < 10 {
        ('0' as int + n) as char
    } else {
        ('a' as int + (n - 10)) as char
    }
}

/// The last `count` hexadecimal digits of a number.
pub open spec fn hex_digits(n: nat, count: nat) -> Seq<char>
    decreases count,
{
    if count == 0 {
        Seq::empty()
    } else {
        hex_digits(n / 16, (count - 1) as nat).push(hex_digit((n % 16) as int))
    }
}

pub proof fn lemma_hex_digits_len(n: nat, count: nat)
    ensures
        hex_digits(n, count).len() == count,
    decreases count,
{
    if count > 0 {
        lemma_hex_digits_len(n / 16, (count - 1) as nat);
    }
}

fn hex_char(n: u128) -> (r: char)
    requires
        n < 16,
    ensures
        r == hex_digit(n as int),
{
    match n {
        0 => '0',
        1 => '1',
        2 => '2',
        3 => '3',
        4 => '4',
        5 => '5',
        6 => '6',
        7 => '7',
        8 => '8',
        9 => '9',
        10 => 'a',
        11 => 'b',
        12 => 'c',
        13 => 'd',
        14 => 'e',
        _ => 'f',
    }
}

fn push_hex(out: &mut Vec<char>, n: u128, count: usize)
    ensures
        final(out)@ == old(out)@ + hex_digits(n as nat, count as nat),
    decreases count,
{
    if count > 0 {
        push_hex(out, n / 16, count - 1);
        out.push(hex_char(n % 16));
    }
    assert(out@ =~= old(out)@ + hex_digits(n as nat, count as nat));
}

impl CommitId {
    /// The id in hexadecimal.
    pub open spec fn hex(self) -> Seq<char> {
        hex_digits(self.high as nat, 32) + hex_digits(self.low as nat, 8)
    }

    fn hex_chars(&self) -> (r: Vec<char>)
        ensures
            r@ == self.hex(),
    {
        let mut out: Vec<char> = Vec::new();
        push_hex(&mut out, self.high, 32);
        push_hex(&mut out, self.low as u128, 8);
        assert(out@ =~= self.hex());
        out
    }

    /// The id in hexadecimal.
    pub fn to_hex(&self) -> (r: String)
        ensures
            r@ == self.hex(),
    {
        crate::text::string_of(&self.hex_chars())
    }

    /// The first seven digits of the id.
    pub fn get_short_string(&self) -> (r: String)
        ensures
            r@ == self.hex().take(7),
    {
        let chars = self.hex_chars();
        proof {
            lemma_hex_digits_len(self.high as nat, 32);
        }
        let r = string_of_range(&chars, 0, 7);
        assert(r@ =~= self.hex().take(7));
        r
    }
}

/// The two sides of a comparison of commits.
#[derive(Clone, Copy, Debug, PartialEq, Eq, Hash, Structural)]
pub struct OldNew {
    pub old: CommitId,
    pub new: CommitId,
}

/// How a diff is computed.
#[derive(Clone, Copy, Debug, PartialEq, Eq, Hash, Structural)]
pub struct DiffOptions {
    pub ignore_whitespace: bool,
    pub context: u32,
    pub interhunk_lines: u32,
}

impl DiffOptions {
    pub open spec fn standard() -> DiffOptions {
        DiffOptions { ignore_whitespace: false, context: 3, interhunk_lines: 0 }
    }
}

impl Default for DiffOptions {
    fn default() -> (r: DiffOptions)
        ensures
            r == DiffOptions::standard(),
    {
        DiffOptions { ignore_whitespace: false, context: 3, interhunk_lines: 0 }
    }
}

/// The part that a line plays in a diff.
#[derive(Clone, Copy, Debug, PartialEq, Eq, Hash, Structural)]
pub enum DiffLineType {
    Context,
    Header,
    Add,
    Delete,
}

/// The line numbers of a diff line in the old and in the new file.
#[derive(Clone, Copy, Debug, PartialEq, Eq, Hash, Structural)]
pub struct DiffLinePosition {
    pub old_lineno: Option<u32>,
    pub new_lineno: Option<u32>,
}

/// One line of a diff.
#[derive(Debug, PartialEq, Eq, Hash)]
pub struct DiffLine {
    pub content: String,
    pub line_type: DiffLineType,
    pub position: DiffLinePosition,
}

/// A run of changed lines with its surroundings.
#[derive(Debug, PartialEq, Eq, Hash)]
pub struct Hunk {
    pub header_hash: u64,
    pub lines: Vec<DiffLine>,
}

/// The diff of one file.
#[derive(Debug, PartialEq, Eq, Hash)]
pub struct FileDiff {
    pub hunks: Vec<Hunk>,
    pub lines: usize,
    pub untracked: bool,
    pub sizes: (u64, u64),
    pub size_delta: i64,
}

/// How many commits a branch is ahead of its upstream and behind it.
#[derive(Clone, Copy, Debug, PartialEq, Eq, Structural)]
pub struct BranchCompare {
    pub ahead: usize,
    pub behind: usize,
}

/// Which untracked files a status scan shows.
#[derive(Clone, Copy, Debug, PartialEq, Eq, Hash, Structural)]
pub enum ShowUntrackedFilesConfig {
    No,
    Normal,
    All,
}

impl ShowUntrackedFilesConfig {
    pub open spec fn set_to(setting: Option<Seq<char>>) -> ShowUntrackedFilesConfig {
        match setting {
            Some(s) => if s == "no"@ {
                ShowUntrackedFilesConfig::No
            } else if s == "normal"@ {
                ShowUntrackedFilesConfig::Normal
            } else {
                ShowUntrackedFilesConfig::All
            },
            None => ShowUntrackedFilesConfig::All,
        }
    }

    /// What the setting of a repository says; all are shown where it says
    /// nothing known.
    pub fn of_setting(setting: Option<&str>) -> (r: ShowUntrackedFilesConfig)
        ensures
            r == ShowUntrackedFilesConfig::set_to(
                match setting {
                    Some(s) => Some(s@),
                    None => None,
                },
            ),
    {
        match setting {
            Some(s) => if text::same(s, "no") {
                ShowUntrackedFilesConfig::No
            } else if text::same(s, "normal") {
                ShowUntrackedFilesConfig::Normal
            } else {
                ShowUntrackedFilesConfig::All
            },
            None => ShowUntrackedFilesConfig::All,
        }
    }

    /// Whether a scan lists untracked files at all.
    pub fn include_untracked(self) -> (r: bool)
        ensures
            r == (self != ShowUntrackedFilesConfig::No),
    {
        match self {
            ShowUntrackedFilesConfig::No => false,
            _ => true,
        }
    }

    /// Whether a scan lists each file of an untracked directory.
    pub fn recurse_untracked_dirs(self) -> (r: bool)
        ensures
            r == (self == ShowUntrackedFilesConfig::All),
    {
        match self {
            ShowUntrackedFilesConfig::All => true,
            _ => false,
        }
    }
}

/// Untracked files are hidden only where the setting says so, and folders are
/// gone through unless it says otherwise.
pub proof fn lemma_untracked_files_are_set(setting: Option<Seq<char>>)
    ensures
        ShowUntrackedFilesConfig::set_to(setting) == ShowUntrackedFilesConfig::No <==> setting
            == Some("no"@),
        ShowUntrackedFilesConfig::set_to(setting) == ShowUntrackedFilesConfig::Normal <==> setting
            == Some("normal"@),
        ShowUntrackedFilesConfig::set_to(None) == ShowUntrackedFilesConfig::All,
{
    reveal_strlit("no");
    reveal_strlit("normal");
    assert("no"@.len() != "normal"@.len());
}

/// What is left of a number without its last hexadecimal digits.
spec fn without_digits(n: nat, count: nat) -> nat
    decreases count,
{
    if count == 0 {
        n
    } else {
        without_digits(n / 16, (count - 1) as nat)
    }
}

spec fn power_of_16(n: nat) -> nat
    decreases n,
{
    if n == 0 {
        1
    } else {
        16 * power_of_16((n - 1) as nat)
    }
}

proof fn lemma_nothing_is_left(n: nat, count: nat)
    requires
        n < power_of_16(count),
    ensures
        without_digits(n, count) == 0,
    decreases count,
{
    if count > 0 {
        lemma_nothing_is_left(n / 16, (count - 1) as nat);
    }
}

proof fn lemma_digits_tell_numbers_apart(a: nat, b: nat, count: nat)
    requires
        hex_digits(a, count) == hex_digits(b, count),
        without_digits(a, count) == without_digits(b, count),
    ensures
        a == b,
    decreases count,
{
    if count > 0 {
        let x = hex_digits(a, count);
        let y = hex_digits(b, count);
        assert(x.last() == y.last());
        assert(x.drop_last() =~= hex_digits(a / 16, (count - 1) as nat));
        assert(y.drop_last() =~= hex_digits(b / 16, (count - 1) as nat));
        lemma_digits_tell_numbers_apart(a / 16, b / 16, (count - 1) as nat);
    }
}

/// An id is written with forty digits, and different ids are written differently.
pub proof fn lemma_ids_are_told_apart(a: CommitId, b: CommitId)
    ensures
        a.hex().len() == 40,
        a.hex() == b.hex() ==> a == b,
{
    lemma_hex_digits_len(a.high as nat, 32);
    lemma_hex_digits_len(b.high as nat, 32);
    lemma_hex_digits_len(a.low as nat, 8);
    lemma_hex_digits_len(b.low as nat, 8);
    if a.hex() == b.hex() {
        assert(a.hex().take(32) =~= hex_digits(a.high as nat, 32));
        assert(b.hex().take(32) =~= hex_digits(b.high as nat, 32));
        assert(a.hex().skip(32) =~= hex_digits(a.low as nat, 8));
        assert(b.hex().skip(32) =~= hex_digits(b.low as nat, 8));
        reveal_with_fuel(power_of_16, 33);
        assert(power_of_16(8) == 0x1_0000_0000);
        assert(power_of_16(32) == 0xffff_ffff_ffff_ffff_ffff_ffff_ffff_ffff + 1);
        lemma_nothing_is_left(a.high as nat, 32);
        lemma_nothing_is_left(b.high as nat, 32);
        lemma_nothing_is_left(a.low as nat, 8);
        lemma_nothing_is_left(b.low as nat, 8);
        lemma_digits_tell_numbers_apart(a.high as nat, b.high as nat, 32);
        lemma_digits_tell_numbers_apart(a.low as nat, b.low as nat, 8);
    }
}

/// Every digit is one of the sixteen, written small.
pub proof fn lemma_ids_are_hexadecimal(id: CommitId, i: int)
    requires
        0 <= i < id.hex().len(),
    ensures
        '0' <= id.hex()[i] && id.hex()[i] <= '9' || 'a' <= id.hex()[i] && id.hex()[i] <= 'f',
{
    lemma_hex_digits_len(id.high as nat, 32);
    lemma_hex_digits_len(id.low as nat, 8);
    if i < 32 {
        lemma_hexadecimal(id.high as nat, 32, i);
    } else {
        lemma_hexadecimal(id.low as nat, 8, i - 32);
    }
}

proof fn lemma_hexadecimal(n: nat, count: nat, i: int)
    requires
        0 <= i < count,
    ensures
        ({
            let d = hex_digits(n, count)[i];
            '0' <= d && d <= '9' || 'a' <= d && d <= 'f'
        }),
    decreases count,
{
    lemma_hex_digits_len(n / 16, (count - 1) as nat);
    if i < count - 1 {
        lemma_hexadecimal(n / 16, (count - 1) as nat, i);
    }
}

} // verus!
