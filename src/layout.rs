//! Names of the directories and files of a store.
//!
//! A store's root holds `global.json` and a `worlds` directory; generation `n`
//! lives in `worlds/world<n>`, with `n` written in decimal without leading zeros.
//! Inside it each record is `<id>.json`; closing a generation also writes its
//! death record to `killed.json`.
use vstd::prelude::*;

verus! {

/// The character of a decimal digit.
pub open spec fn digit_char(d: nat) -> char {
    if d == 0 {
        '0'
    } else if d == 1 {
        '1'
    } else if d == 2 {
        '2'
    } else if d == 3 {
        '3'
    } else if d == 4 {
        '4'
    } else if d == 5 {
        '5'
    } else if d == 6 {
        '6'
    } else if d == 7 {
        '7'
    } else if d == 8 {
        '8'
    } else {
        '9'
    }
}

pub open spec fn is_digit(c: char) -> bool {
    '0' <= c && c <= '9'
}

pub open spec fn digit_value(c: char) -> nat {
    (c as int - '0' as int) as nat
}

/// `n` in decimal, without leading zeros.
pub open spec fn decimal(n: nat) -> Seq<char>
    decreases n,
{
    if n < 10 {
        seq![digit_char(n)]
    } else {
        decimal(n / 10).push(digit_char(n % 10))
    }
}

/// The number that a string of digits stands for.
pub open spec fn decimal_value(s: Seq<char>) -> nat
    decreases s.len(),
{
    if s.len() == 0 {
        0
    } else {
        decimal_value(s.drop_last()) * 10 + digit_value(s.last())
    }
}

/// A non-empty string of digits without a leading zero (but `0` itself).
pub open spec fn is_canonical_decimal(s: Seq<char>) -> bool {
    &&& s.len() > 0
    &&& forall|i: int| 0 <= i < s.len() ==> is_digit(#[trigger] s[i])
    &&& (s.len() == 1 || s[0] != '0')
}

proof fn lemma_digit_char(d: nat)
    requires
        d < 10,
    ensures
        is_digit(digit_char(d)),
        digit_value(digit_char(d)) == d,
        digit_char(d) == '0' <==> d == 0,
{
}

/// Writing a number in decimal and reading it back gives the number.
pub proof fn lemma_decimal_round_trip(n: nat)
    ensures
        is_canonical_decimal(decimal(n)),
        decimal_value(decimal(n)) == n,
        n > 0 ==> decimal(n)[0] != '0',
    decreases n,
{
    if n < 10 {
        lemma_digit_char(n);
        assert(decimal(n).drop_last() =~= Seq::<char>::empty());
        assert(decimal_value(Seq::<char>::empty()) == 0);
        assert(decimal(n).last() == digit_char(n));
    } else {
        lemma_decimal_round_trip(n / 10);
        lemma_digit_char(n % 10);
        let s = decimal(n);
        let p = decimal(n / 10);
        assert(s.drop_last() =~= p);
        assert forall|i: int| 0 <= i < s.len() implies is_digit(#[trigger] s[i]) by {
            if i < p.len() {
                assert(s[i] == p[i]);
            }
        }
        assert(s[0] == p[0]);
        assert(s.last() == digit_char(n % 10));
        assert(decimal_value(s) == decimal_value(p) * 10 + digit_value(s.last()));
        assert(digit_value(s.last()) == n % 10);
        assert((n / 10) * 10 + n % 10 == n) by (nonlinear_arith);
    }
}

/// Appending digits never makes the value smaller.
proof fn lemma_value_prefix(s: Seq<char>, k: int)
    requires
        0 <= k <= s.len(),
    ensures
        decimal_value(s.subrange(0, k)) <= decimal_value(s),
    decreases s.len() - k,
{
    if k < s.len() {
        let t = s.subrange(0, k + 1);
        assert(t.drop_last() =~= s.subrange(0, k));
        lemma_value_prefix(s, k + 1);
    } else {
        assert(s.subrange(0, k) =~= s);
    }
}

fn digit_str(d: u64) -> (r: &'static str)
    requires
        d < 10,
    ensures
        r@ == seq![digit_char(d as nat)],
{
    proof {
        reveal_strlit("0");
        reveal_strlit("1");
        reveal_strlit("2");
        reveal_strlit("3");
        reveal_strlit("4");
        reveal_strlit("5");
        reveal_strlit("6");
        reveal_strlit("7");
        reveal_strlit("8");
        reveal_strlit("9");
    }
    if d == 0 {
        "0"
    } else if d == 1 {
        "1"
    } else if d == 2 {
        "2"
    } else if d == 3 {
        "3"
    } else if d == 4 {
        "4"
    } else if d == 5 {
        "5"
    } else if d == 6 {
        "6"
    } else if d == 7 {
        "7"
    } else if d == 8 {
        "8"
    } else {
        "9"
    }
}

/// Writes `n` in decimal.
pub fn format_decimal(n: u64) -> (r: String)
    ensures
        r@ == decimal(n as nat),
    decreases n,
{
    if n < 10 {
        String::from_str(digit_str(n))
    } else {
        let mut s = format_decimal(n / 10);
        s.append(digit_str(n % 10));
        s
    }
}

/// Reads a canonical decimal number; `None` for any other text and for a value
/// beyond `u64`.
pub fn parse_decimal(s: &str) -> (r: Option<u64>)
    ensures
        r == (if is_canonical_decimal(s@) && decimal_value(s@) <= u64::MAX {
            Some(decimal_value(s@) as u64)
        } else {
            None::<u64>
        }),
{
    let len = s.unicode_len();
    if len == 0 {
        return None;
    }
    if len > 1 && s.get_char(0) == '0' {
        return None;
    }
    let mut acc: u64 = 0;
    let mut i: usize = 0;
    while i < len
        invariant
            len == s@.len(),
            i <= len,
            acc == decimal_value(s@.subrange(0, i as int)),
            forall|j: int| 0 <= j < i ==> is_digit(#[trigger] s@[j]),
        decreases len - i,
    {
        let c = s.get_char(i);
        if c < '0' || c > '9' {
            return None;
        }
        let d = (c as u32 - '0' as u32) as u64;
        proof {
            let t = s@.subrange(0, i + 1);
            assert(t.drop_last() =~= s@.subrange(0, i as int));
            assert(d == digit_value(c));
        }
        if acc > (u64::MAX - d) / 10 {
            proof {
                lemma_value_prefix(s@, i + 1);
                assert(acc * 10 + d > u64::MAX) by (nonlinear_arith)
                    requires
                        acc > (u64::MAX - d) / 10,
                        d <= 9,
                ;
            }
            return None;
        }
        proof {
            assert(acc * 10 + d <= u64::MAX) by (nonlinear_arith)
                requires
                    acc <= (u64::MAX - d) / 10,
                    d <= 9,
            ;
        }
        acc = acc * 10 + d;
        i = i + 1;
    }
    proof {
        assert(s@.subrange(0, len as int) =~= s@);
    }
    Some(acc)
}

/// The prefix of every generation directory's name.
pub open spec fn generation_prefix() -> Seq<char> {
    "world"@
}

/// The directory name of generation `n`.
pub open spec fn generation_dir_name(n: nat) -> Seq<char> {
    generation_prefix() + decimal(n)
}

/// Where generation `n` lives, relative to the store's root.
pub open spec fn generation_path(n: nat) -> Seq<char> {
    "worlds/"@ + generation_dir_name(n)
}

/// The file of a record, relative to the store's root.
pub open spec fn record_path(n: nat, id: Seq<char>) -> Seq<char> {
    generation_path(n) + "/"@ + id + ".json"@
}

/// The file of a generation's death record, relative to the store's root.
pub open spec fn death_path(n: nat) -> Seq<char> {
    generation_path(n) + "/"@ + "killed.json"@
}

/// What an entry of the `worlds` directory is.
#[derive(Debug, Clone, Copy, PartialEq, Eq, Structural)]
pub enum DirName {
    /// The directory of the generation with this ordinal.
    Generation(u64),
    /// A name with the generation prefix whose rest is no valid ordinal.
    Malformed,
    /// Any other name.
    Unrelated,
}

pub open spec fn has_prefix(s: Seq<char>, p: Seq<char>) -> bool {
    s.len() >= p.len() && s.subrange(0, p.len() as int) == p
}

pub open spec fn has_suffix(s: Seq<char>, p: Seq<char>) -> bool {
    s.len() >= p.len() && s.subrange(s.len() - p.len(), s.len() as int) == p
}

/// How a directory name reads: `world` followed by a canonical decimal
/// ordinal of at least 1 names a generation.
pub open spec fn dir_name_kind(name: Seq<char>) -> DirName {
    let p = generation_prefix();
    if !has_prefix(name, p) {
        DirName::Unrelated
    } else {
        let rest = name.subrange(p.len() as int, name.len() as int);
        if is_canonical_decimal(rest) && 1 <= decimal_value(rest) <= u64::MAX {
            DirName::Generation(decimal_value(rest) as u64)
        } else {
            DirName::Malformed
        }
    }
}

fn str_has_prefix(s: &str, p: &str) -> (r: bool)
    ensures
        r == has_prefix(s@, p@),
{
    let n = s.unicode_len();
    let k = p.unicode_len();
    if n < k {
        return false;
    }
    String::from_str(s.substring_char(0, k)) == String::from_str(p)
}

fn str_has_suffix(s: &str, p: &str) -> (r: bool)
    ensures
        r == has_suffix(s@, p@),
{
    let n = s.unicode_len();
    let k = p.unicode_len();
    if n < k {
        return false;
    }
    String::from_str(s.substring_char(n - k, n)) == String::from_str(p)
}

/// The directory name of generation `n`.
pub fn world_dir_name(n: u64) -> (r: String)
    ensures
        r@ == generation_dir_name(n as nat),
{
    let mut name = String::from_str("world");
    let digits = format_decimal(n);
    name.append(digits.as_str());
    name
}

/// The path of generation `n`, relative to the store's root.
pub fn world_path(n: u64) -> (r: String)
    ensures
        r@ == generation_path(n as nat),
{
    let mut path = String::from_str("worlds/");
    let name = world_dir_name(n);
    path.append(name.as_str());
    path
}

/// The path of a record's file, relative to the store's root.
pub fn record_file_path(n: u64, id: &str) -> (r: String)
    ensures
        r@ == record_path(n as nat, id@),
{
    let mut path = world_path(n);
    path.append("/");
    path.append(id);
    path.append(".json");
    path
}

/// The path of a generation's death record, relative to the store's root.
pub fn death_file_path(n: u64) -> (r: String)
    ensures
        r@ == death_path(n as nat),
{
    let mut path = world_path(n);
    path.append("/");
    path.append("killed.json");
    path
}

/// Reads a directory name under `worlds`.
pub fn parse_world_dir_name(name: &str) -> (r: DirName)
    ensures
        r == dir_name_kind(name@),
{
    proof {
        reveal_strlit("world");
    }
    if !str_has_prefix(name, "world") {
        return DirName::Unrelated;
    }
    let rest = name.substring_char(5, name.unicode_len());
    match parse_decimal(rest) {
        Some(n) => {
            if n >= 1 {
                DirName::Generation(n)
            } else {
                DirName::Malformed
            }
        },
        None => DirName::Malformed,
    }
}

/// Reading the name of generation `n`'s directory gives back `n`.
pub proof fn lemma_dir_name_round_trip(n: u64)
    requires
        n >= 1,
    ensures
        dir_name_kind(generation_dir_name(n as nat)) == DirName::Generation(n),
{
    reveal_strlit("world");
    let name = generation_dir_name(n as nat);
    let p = generation_prefix();
    assert(name.subrange(0, p.len() as int) =~= p);
    assert(name.subrange(p.len() as int, name.len() as int) =~= decimal(n as nat));
    lemma_decimal_round_trip(n as nat);
}

/// What a file in a generation directory holds.
#[derive(Debug, Clone, PartialEq, Eq)]
pub enum FileRole {
    /// The record of the player with this id.
    Record(String),
    /// Anything else; it is not read.
    Other,
}

/// The name of a record file: any `.json` file. The death record written when
/// a generation closes is no exception: read back, it is the record of the id
/// `killed`.
pub open spec fn is_record_file(name: Seq<char>) -> bool {
    has_suffix(name, ".json"@)
}

/// The id that a record file's name stands for: the name without `.json`.
pub open spec fn record_id_of(name: Seq<char>) -> Seq<char> {
    name.subrange(0, name.len() - ".json"@.len())
}

/// The file name of the record of `id`.
pub open spec fn record_file_name(id: Seq<char>) -> Seq<char> {
    id + ".json"@
}

/// Tells what a file of a generation directory holds.
pub fn file_role(name: &str) -> (r: FileRole)
    ensures
        is_record_file(name@) <==> r is Record,
        is_record_file(name@) ==> (r matches FileRole::Record(id) && id@ == record_id_of(name@)),
        !is_record_file(name@) ==> r == FileRole::Other,
{
    proof {
        reveal_strlit(".json");
    }
    if !str_has_suffix(name, ".json") {
        return FileRole::Other;
    }
    let n = name.unicode_len();
    FileRole::Record(String::from_str(name.substring_char(0, n - 5)))
}

/// A record's file name reads back as the record's id, for every id.
pub proof fn lemma_record_file_name(id: Seq<char>)
    ensures
        is_record_file(record_file_name(id)),
        record_id_of(record_file_name(id)) == id,
{
    reveal_strlit(".json");
    let name = record_file_name(id);
    assert(name.subrange(name.len() - 5, name.len() as int) =~= ".json"@);
    assert(name.subrange(0, name.len() - 5) =~= id);
}

} // verus!
