//! Directory-listing rendering: entry classification, binary size
//! formatting, stable ordering by entry kind, and assembly of the listing
//! page from the built-in templates with all user-controlled text escaped.
use vstd::arithmetic::div_mod::lemma_fundamental_div_mod;
use vstd::arithmetic::mul::lemma_mul_inequality;
use vstd::prelude::*;
use vstd::string::*;

use crate::server::{Response, ResponseBody};
use crate::static_files::{
    dir_link_svg, dir_svg, entry_template, file_link_svg, file_svg, get_dir_link_svg,
    get_dir_svg, get_entry_html, get_file_link_svg, get_file_svg, get_listing_html,
    get_unknown_svg, listing_template, unknown_svg,
};
use crate::strutil::{
    dec_digit, dec_seq, escape_html, escape_seq, placeholder, render, replace_seq, u64_to_dec,
};

verus! {

/// The kind of a directory child, classified with one level of symlink
/// following.
#[derive(Clone, Copy, Debug, PartialEq, Eq, Structural)]
pub enum EntryType {
    Dir,
    File,
    DirLink,
    FileLink,
    Other,
}

/// Sort rank of an entry kind: directories first, then directory
/// symlinks, files, file symlinks, and unknown kinds last.
pub open spec fn rank_of(t: EntryType) -> int {
    match t {
        EntryType::Dir => 0,
        EntryType::DirLink => 1,
        EntryType::File => 2,
        EntryType::FileLink => 3,
        EntryType::Other => 4,
    }
}

/// The icon shown for each entry kind.
pub open spec fn icon_of(t: EntryType) -> Seq<char> {
    match t {
        EntryType::Dir => dir_svg(),
        EntryType::File => file_svg(),
        EntryType::DirLink => dir_link_svg(),
        EntryType::FileLink => file_link_svg(),
        EntryType::Other => unknown_svg(),
    }
}

/// The short label of each entry kind.
pub open spec fn label_of(t: EntryType) -> Seq<char> {
    match t {
        EntryType::Dir => "dir"@,
        EntryType::File => "file"@,
        EntryType::DirLink => "dir-link"@,
        EntryType::FileLink => "file-link"@,
        EntryType::Other => "unknown"@,
    }
}

impl EntryType {
    /// True only for a real directory, not for a directory symlink.
    pub fn is_dir(&self) -> (r: bool)
        ensures
            r == (*self is Dir),
    {
        matches!(self, EntryType::Dir)
    }

    /// The kind's sort rank.
    pub fn value(&self) -> (r: u8)
        ensures
            r as int == rank_of(*self),
    {
        match self {
            EntryType::Dir => 0,
            EntryType::DirLink => 1,
            EntryType::File => 2,
            EntryType::FileLink => 3,
            EntryType::Other => 4,
        }
    }

    /// The icon for this kind of entry.
    pub fn to_icon(&self) -> (r: String)
        ensures
            r@ == icon_of(*self),
    {
        match self {
            EntryType::Dir => get_dir_svg(),
            EntryType::File => get_file_svg(),
            EntryType::DirLink => get_dir_link_svg(),
            EntryType::FileLink => get_file_link_svg(),
            EntryType::Other => get_unknown_svg(),
        }
    }

    /// The kind's short label.
    pub fn kind_label(&self) -> (r: &'static str)
        ensures
            r@ == label_of(*self),
    {
        match self {
            EntryType::Dir => "dir",
            EntryType::File => "file",
            EntryType::DirLink => "dir-link",
            EntryType::FileLink => "file-link",
            EntryType::Other => "unknown",
        }
    }
}

/// How an entry is classified from what the filesystem reports: a symlink
/// goes by its target (directory, file, or neither); anything else goes by
/// its own metadata.
pub open spec fn classify_spec(
    is_symlink: bool,
    target_is_dir: bool,
    target_is_file: bool,
    is_dir: bool,
    is_file: bool,
) -> EntryType {
    if is_symlink {
        if target_is_dir {
            EntryType::DirLink
        } else if target_is_file {
            EntryType::FileLink
        } else {
            EntryType::Other
        }
    } else if is_dir {
        EntryType::Dir
    } else if is_file {
        EntryType::File
    } else {
        EntryType::Other
    }
}

/// Classifies a directory child from its metadata flags: `is_symlink`,
/// `is_dir` and `is_file` describe the entry itself, `target_is_dir` and
/// `target_is_file` its symlink target when one was followed.
pub fn classify_entry(
    is_symlink: bool,
    target_is_dir: bool,
    target_is_file: bool,
    is_dir: bool,
    is_file: bool,
) -> (r: EntryType)
    ensures
        r == classify_spec(is_symlink, target_is_dir, target_is_file, is_dir, is_file),
{
    if is_symlink {
        if target_is_dir {
            EntryType::DirLink
        } else if target_is_file {
            EntryType::FileLink
        } else {
            EntryType::Other
        }
    } else if is_dir {
        EntryType::Dir
    } else if is_file {
        EntryType::File
    } else {
        EntryType::Other
    }
}

#[verifier::external_type_specification]
#[verifier::external_body]
pub struct ExSystemTime(std::time::SystemTime);

/// Relies on chrono's `DateTime::from_timestamp` and `Local` formatting:
/// renders a timestamp in the machine's local time zone, like
/// `Jan  5 2026 13:07:45`. A timestamp outside chrono's representable
/// range renders as the empty string rather than panicking. The result
/// depends on the local time zone, so nothing is claimed of it; the
/// renderer escapes it like any other text.
#[verifier::external_body]
fn format_system_time(time: &std::time::SystemTime) -> (r: String) {
    let secs: i64 = match time.duration_since(std::time::UNIX_EPOCH) {
        Ok(d) => i64::try_from(d.as_secs()).unwrap_or(i64::MAX),
        Err(e) => i64::try_from(e.duration().as_secs()).map_or(i64::MIN, |s: i64| -s),
    };
    match chrono::DateTime::from_timestamp(secs, 0) {
        Some(utc) => utc.with_timezone(&chrono::Local).format("%b %-e %Y %H:%M:%S").to_string(),
        None => String::new(),
    }
}

/// One child of the listed directory, as the listing renders it.
pub struct DirectoryEntry {
    pub name: String,
    pub kind: EntryType,
    pub size: Option<u64>,
    pub modified: Option<String>,
}

impl DirectoryEntry {
    /// Builds a listing entry; a modification time, when given, is
    /// rendered by the local-time formatter.
    pub fn new(
        name: String,
        kind: EntryType,
        size: Option<u64>,
        modified: Option<std::time::SystemTime>,
    ) -> (r: DirectoryEntry)
        ensures
            r.name == name,
            r.kind == kind,
            r.size == size,
            r.modified is Some <==> modified is Some,
    {
        let modified_text = match modified {
            Some(t) => Some(format_system_time(&t)),
            None => None,
        };
        DirectoryEntry { name, kind, size, modified: modified_text }
    }
}

/// 1024 to the power `e`.
pub open spec fn pow1024(e: nat) -> nat
    decreases e,
{
    if e == 0 {
        1
    } else {
        1024 * pow1024((e - 1) as nat)
    }
}

/// The binary-unit exponent of a byte count: the number of times it can
/// be divided by 1024.
pub open spec fn size_exp(b: nat) -> nat
    decreases b,
{
    if b < 1024 {
        0
    } else {
        (1 + size_exp(b / 1024)) as nat
    }
}

/// `n / d` rounded to the nearest integer, ties to the even neighbour.
pub open spec fn round_half_even(n: int, d: int) -> int {
    let q = n / d;
    let r = n % d;
    if 2 * r < d {
        q
    } else if 2 * r > d {
        q + 1
    } else if q % 2 == 0 {
        q
    } else {
        q + 1
    }
}

/// The number part from a count of hundredths: up to two decimal places,
/// trailing zeros (and a bare point) trimmed.
pub open spec fn size_number_seq(h: int) -> Seq<char> {
    let ip = h / 100;
    let f = h % 100;
    if f == 0 {
        dec_seq(ip)
    } else if f % 10 == 0 {
        dec_seq(ip) + seq!['.', dec_digit(f / 10)]
    } else {
        dec_seq(ip) + seq!['.', dec_digit(f / 10), dec_digit(f % 10)]
    }
}

/// The unit symbol for each binary-unit exponent, from bytes up to
/// yobibyte scale.
pub open spec fn unit_seq(e: int) -> Seq<char> {
    if e == 0 {
        seq!['B']
    } else if e == 1 {
        seq!['K', 'B']
    } else if e == 2 {
        seq!['M', 'B']
    } else if e == 3 {
        seq!['G', 'B']
    } else if e == 4 {
        seq!['T', 'B']
    } else if e == 5 {
        seq!['P', 'B']
    } else if e == 6 {
        seq!['E', 'B']
    } else if e == 7 {
        seq!['Z', 'B']
    } else {
        seq!['Y', 'B']
    }
}

/// A byte count formatted in binary units: the count scaled by the
/// largest fitting power of 1024, rounded to hundredths, trailing zeros
/// trimmed, with the unit symbol appended.
pub open spec fn format_file_size_spec(bytes: nat) -> Seq<char> {
    if bytes == 0 {
        seq!['0', ' ', 'B']
    } else {
        let e = size_exp(bytes);
        let h = round_half_even(100 * (bytes as int), pow1024(e) as int);
        size_number_seq(h) + seq![' '] + unit_seq(e as int)
    }
}

proof fn lemma_pow1024_values()
    ensures
        pow1024(0) == 1,
        pow1024(1) == 1024,
        pow1024(2) == 0x100000,
        pow1024(3) == 0x40000000,
        pow1024(4) == 0x10000000000,
        pow1024(5) == 0x4000000000000,
        pow1024(6) == 0x1000000000000000,
        pow1024(7) == 0x400000000000000000,
{
    assert(pow1024(0) == 1);
    assert(pow1024(1) == 1024);
    assert(pow1024(2) == 0x100000);
    assert(pow1024(3) == 0x40000000);
    assert(pow1024(4) == 0x10000000000);
    assert(pow1024(5) == 0x4000000000000);
    assert(pow1024(6) == 0x1000000000000000);
    assert(pow1024(7) == 0x400000000000000000);
}

proof fn lemma_pow1024_pos(e: nat)
    ensures
        pow1024(e) >= 1,
    decreases e,
{
    if e > 0 {
        lemma_pow1024_pos((e - 1) as nat);
    }
}

/// The exponent found by repeated scaling is the one the spec defines.
proof fn lemma_size_exp_unique(b: nat, e: nat)
    requires
        pow1024(e) <= b < pow1024(e + 1),
    ensures
        size_exp(b) == e,
    decreases e,
{
    lemma_pow1024_pos(e);
    if e == 0 {
        assert(pow1024(1) == 1024);
    } else {
        lemma_pow1024_pos((e - 1) as nat);
        assert(pow1024(e) == 1024 * pow1024((e - 1) as nat));
        assert(pow1024(e) >= 1024);
        assert(b >= 1024);
        let q = b / 1024;
        lemma_fundamental_div_mod(b as int, 1024);
        assert(b == 1024 * q + b % 1024);
        // pow1024(e) <= b and b < 1024 * (q + 1) give pow1024(e - 1) <= q
        assert(1024 * pow1024((e - 1) as nat) <= 1024 * q + b % 1024);
        assert(b % 1024 < 1024);
        assert(1024 * pow1024((e - 1) as nat) < 1024 * (q + 1));
        assert(pow1024((e - 1) as nat) <= q);
        // b < pow1024(e + 1) == 1024 * pow1024(e) gives q < pow1024(e)
        assert(pow1024(e + 1) == 1024 * pow1024(e));
        assert(1024 * q <= b);
        assert(1024 * q < 1024 * pow1024(e));
        assert(q < pow1024(e));
        lemma_size_exp_unique(q, (e - 1) as nat);
    }
}

/// One decimal digit, from `u64_to_dec` on a value below ten.
fn one_digit(d: u64) -> (r: String)
    requires
        d < 10,
    ensures
        r@ == seq![dec_digit(d as int)],
{
    let s = u64_to_dec(d);
    proof {
        assert(dec_seq(d as int) == seq![dec_digit(d as int)]);
    }
    s
}

/// The unit symbol for a binary-unit exponent.
fn unit_str(e: u32) -> (r: &'static str)
    ensures
        r@ == unit_seq(e as int),
{
    proof {
        reveal_strlit("B");
        reveal_strlit("KB");
        reveal_strlit("MB");
        reveal_strlit("GB");
        reveal_strlit("TB");
        reveal_strlit("PB");
        reveal_strlit("EB");
        reveal_strlit("ZB");
        reveal_strlit("YB");
    }
    let r = if e == 0 {
        "B"
    } else if e == 1 {
        "KB"
    } else if e == 2 {
        "MB"
    } else if e == 3 {
        "GB"
    } else if e == 4 {
        "TB"
    } else if e == 5 {
        "PB"
    } else if e == 6 {
        "EB"
    } else if e == 7 {
        "ZB"
    } else {
        "YB"
    };
    proof {
        assert(r@ =~= unit_seq(e as int));
    }
    r
}

/// Renders a count of hundredths as a number with up to two decimal
/// places, trailing zeros trimmed.
fn size_number(h: u64) -> (r: String)
    ensures
        r@ == size_number_seq(h as int),
{
    let ip: u64 = h / 100;
    let f: u64 = h % 100;
    let mut out = u64_to_dec(ip);
    if f > 0 {
        out.append(".");
        proof {
            reveal_strlit(".");
            assert("."@ =~= seq!['.']);
        }
        if f % 10 == 0 {
            let fd = one_digit(f / 10);
            out.append(fd.as_str());
            proof {
                assert(out@ =~= dec_seq(ip as int) + seq!['.', dec_digit(f as int / 10)]);
            }
        } else {
            let f1 = one_digit(f / 10);
            let f2 = one_digit(f % 10);
            out.append(f1.as_str());
            out.append(f2.as_str());
            proof {
                assert(out@ =~= dec_seq(ip as int) + seq![
                    '.',
                    dec_digit(f as int / 10),
                    dec_digit(f as int % 10),
                ]);
            }
        }
    }
    out
}

/// Formats a byte count in binary units, to at most two decimal places
/// with trailing zeros trimmed: 0 is `0 B`, 1024 is `1 KB`, 1536 is
/// `1.5 KB`.
pub fn format_file_size(bytes: u64) -> (r: String)
    ensures
        r@ == format_file_size_spec(bytes as nat),
{
    if bytes == 0 {
        proof {
            reveal_strlit("0 B");
            assert("0 B"@ =~= seq!['0', ' ', 'B']);
        }
        return String::from_str("0 B");
    }
    let b128: u128 = bytes as u128;
    let mut e: u32 = 0;
    let mut d: u128 = 1;
    proof {
        lemma_pow1024_values();
    }
    while d * 1024 <= b128
        invariant
            b128 == bytes as nat,
            bytes >= 1,
            d as nat == pow1024(e as nat),
            d as nat <= b128 as nat,
            e <= 6,
        decreases b128 - d,
    {
        proof {
            lemma_pow1024_values();
            if e == 6 {
                assert(d as nat * 1024 == pow1024(7)) by {
                    assert(pow1024(7) == 1024 * pow1024(6));
                }
                assert(b128 < pow1024(7));
            }
            assert(e < 6);
        }
        d = d * 1024;
        e = e + 1;
    }
    proof {
        lemma_size_exp_unique(bytes as nat, e as nat);
    }
    let n: u128 = b128 * 100;
    let q: u128 = n / d;
    let rem: u128 = n % d;
    let h: u128 = if 2 * rem < d {
        q
    } else if 2 * rem > d {
        q + 1
    } else if q % 2 == 0 {
        q
    } else {
        q + 1
    };
    proof {
        lemma_fundamental_div_mod(n as int, d as int);
        assert(n < 102400 * (d as int));
        assert(q < 102400) by {
            if q as int >= 102400 {
                lemma_mul_inequality(102400, q as int, d as int);
            }
        }
        assert(h as int == round_half_even(100 * (bytes as int), pow1024(e as nat) as int));
        assert(h <= 102400);
    }
    let mut out = size_number(h as u64);
    out.append(" ");
    let unit = unit_str(e);
    out.append(unit);
    proof {
        reveal_strlit(" ");
        assert(" "@ =~= seq![' ']);
        assert(out@ =~= format_file_size_spec(bytes as nat));
    }
    out
}

/// The entries of `s` whose kind has rank `r`, in their given order.
pub open spec fn rank_filter(s: Seq<DirectoryEntry>, r: int) -> Seq<DirectoryEntry>
    decreases s.len(),
{
    if s.len() == 0 {
        Seq::empty()
    } else if rank_of(s.last().kind) == r {
        rank_filter(s.drop_last(), r).push(s.last())
    } else {
        rank_filter(s.drop_last(), r)
    }
}

/// The entries ordered by kind rank, the given order kept within each
/// rank.
pub open spec fn sorted_by_rank(s: Seq<DirectoryEntry>) -> Seq<DirectoryEntry> {
    rank_filter(s, 0) + rank_filter(s, 1) + rank_filter(s, 2) + rank_filter(s, 3) + rank_filter(
        s,
        4,
    )
}

proof fn lemma_rank_filter_count(s: Seq<DirectoryEntry>)
    ensures
        rank_filter(s, 0).len() + rank_filter(s, 1).len() + rank_filter(s, 2).len() + rank_filter(
            s,
            3,
        ).len() + rank_filter(s, 4).len() == s.len(),
    decreases s.len(),
{
    if s.len() > 0 {
        lemma_rank_filter_count(s.drop_last());
        assert(0 <= rank_of(s.last().kind) <= 4);
    }
}

/// Ordering the listing loses no entry and invents none: the sorted
/// sequence has exactly one row source per directory child.
pub proof fn lemma_sort_preserves_count(s: Seq<DirectoryEntry>)
    ensures
        sorted_by_rank(s).len() == s.len(),
{
    lemma_rank_filter_count(s);
}

proof fn lemma_rank_filter_ranks(s: Seq<DirectoryEntry>, r: int)
    ensures
        forall|i: int|
            0 <= i < rank_filter(s, r).len() ==> rank_of(#[trigger] rank_filter(s, r)[i].kind)
                == r,
    decreases s.len(),
{
    if s.len() > 0 {
        lemma_rank_filter_ranks(s.drop_last(), r);
    }
}

/// The listing order is by kind rank: directories come before directory
/// symlinks, which come before files, file symlinks, and other kinds.
pub proof fn lemma_sort_ordered(s: Seq<DirectoryEntry>)
    ensures
        forall|i: int, j: int|
            0 <= i <= j < sorted_by_rank(s).len() ==> rank_of(
                #[trigger] sorted_by_rank(s)[i].kind,
            ) <= rank_of(#[trigger] sorted_by_rank(s)[j].kind),
{
    lemma_rank_filter_ranks(s, 0);
    lemma_rank_filter_ranks(s, 1);
    lemma_rank_filter_ranks(s, 2);
    lemma_rank_filter_ranks(s, 3);
    lemma_rank_filter_ranks(s, 4);
    let l0 = rank_filter(s, 0).len() as int;
    let l1 = rank_filter(s, 1).len() as int;
    let l2 = rank_filter(s, 2).len() as int;
    let l3 = rank_filter(s, 3).len() as int;
    let l4 = rank_filter(s, 4).len() as int;
    assert forall|i: int| 0 <= i < sorted_by_rank(s).len() implies {
        let r = rank_of(#[trigger] sorted_by_rank(s)[i].kind);
        &&& (i < l0 ==> r == 0)
        &&& (l0 <= i < l0 + l1 ==> r == 1)
        &&& (l0 + l1 <= i < l0 + l1 + l2 ==> r == 2)
        &&& (l0 + l1 + l2 <= i < l0 + l1 + l2 + l3 ==> r == 3)
        &&& (l0 + l1 + l2 + l3 <= i ==> r == 4)
    } by {
        if i < l0 {
            assert(sorted_by_rank(s)[i] == rank_filter(s, 0)[i]);
        } else if i < l0 + l1 {
            assert(sorted_by_rank(s)[i] == rank_filter(s, 1)[i - l0]);
        } else if i < l0 + l1 + l2 {
            assert(sorted_by_rank(s)[i] == rank_filter(s, 2)[i - l0 - l1]);
        } else if i < l0 + l1 + l2 + l3 {
            assert(sorted_by_rank(s)[i] == rank_filter(s, 3)[i - l0 - l1 - l2]);
        } else {
            assert(sorted_by_rank(s)[i] == rank_filter(s, 4)[i - l0 - l1 - l2 - l3]);
        }
    }
}

/// Orders the entries by kind rank, keeping the enumeration order within
/// each rank (a stable bucket pass).
pub fn sort_entries(entries: Vec<DirectoryEntry>) -> (r: Vec<DirectoryEntry>)
    ensures
        r@ == sorted_by_rank(entries@),
{
    let ghost orig = entries@;
    let mut rest = entries;
    let mut b0: Vec<DirectoryEntry> = Vec::new();
    let mut b1: Vec<DirectoryEntry> = Vec::new();
    let mut b2: Vec<DirectoryEntry> = Vec::new();
    let mut b3: Vec<DirectoryEntry> = Vec::new();
    let mut b4: Vec<DirectoryEntry> = Vec::new();
    proof {
        assert(orig.subrange(0, 0) =~= Seq::<DirectoryEntry>::empty());
        assert(rest@ =~= orig.subrange(0, orig.len() as int));
    }
    while rest.len() > 0
        invariant
            rest@.len() <= orig.len(),
            rest@ == orig.subrange(
                orig.len() - rest@.len(),
                orig.len() as int,
            ),
            b0@ == rank_filter(orig.subrange(0, orig.len() - rest@.len()), 0),
            b1@ == rank_filter(orig.subrange(0, orig.len() - rest@.len()), 1),
            b2@ == rank_filter(orig.subrange(0, orig.len() - rest@.len()), 2),
            b3@ == rank_filter(orig.subrange(0, orig.len() - rest@.len()), 3),
            b4@ == rank_filter(orig.subrange(0, orig.len() - rest@.len()), 4),
        decreases rest@.len(),
    {
        let ghost p = orig.len() - rest@.len();
        let e = rest.remove(0);
        proof {
            assert(e == orig[p as int]);
            assert(rest@ =~= orig.subrange(p as int + 1, orig.len() as int));
            assert(orig.subrange(0, p as int + 1).drop_last() =~= orig.subrange(0, p as int));
            assert(orig.subrange(0, p as int + 1).last() == e);
        }
        let v = e.kind.value();
        if v == 0 {
            b0.push(e);
        } else if v == 1 {
            b1.push(e);
        } else if v == 2 {
            b2.push(e);
        } else if v == 3 {
            b3.push(e);
        } else {
            b4.push(e);
        }
    }
    proof {
        assert(orig.subrange(0, orig.len() as int) =~= orig);
    }
    let mut out = b0;
    out.append(&mut b1);
    out.append(&mut b2);
    out.append(&mut b3);
    out.append(&mut b4);
    proof {
        assert(out@ =~= sorted_by_rank(orig));
    }
    out
}

/// The link target of a listing entry: the directory's root-relative path
/// with a leading separator, then the entry's name.
pub open spec fn entry_href(rel: Seq<char>, name: Seq<char>) -> Seq<char> {
    if rel.len() == 0 {
        seq!['/'] + name
    } else {
        seq!['/'] + rel + seq!['/'] + name
    }
}

/// The size column text: the formatted size for a non-directory with a
/// known size, empty otherwise.
pub open spec fn size_text(e: DirectoryEntry) -> Seq<char> {
    match e.size {
        Some(n) => if e.kind is Dir {
            Seq::empty()
        } else {
            format_file_size_spec(n as nat)
        },
        None => Seq::empty(),
    }
}

/// The modified column text: the formatted time when known, empty
/// otherwise.
pub open spec fn modified_text(e: DirectoryEntry) -> Seq<char> {
    match e.modified {
        Some(m) => m@,
        None => Seq::empty(),
    }
}

/// One listing row: the entry template with the icon, link target,
/// escaped name, escaped size and escaped time filled in.
pub open spec fn row_seq(rel: Seq<char>, e: DirectoryEntry) -> Seq<char> {
    replace_seq(
        replace_seq(
            replace_seq(
                replace_seq(
                    replace_seq(entry_template(), placeholder("icon"@), icon_of(e.kind)),
                    placeholder("path"@),
                    escape_seq(entry_href(rel, e.name@)),
                ),
                placeholder("name"@),
                escape_seq(e.name@),
            ),
            placeholder("size"@),
            escape_seq(size_text(e)),
        ),
        placeholder("modified"@),
        escape_seq(modified_text(e)),
    )
}

/// The listing rows, one per entry, in order.
pub open spec fn rows_seq(rel: Seq<char>, entries: Seq<DirectoryEntry>) -> Seq<char>
    decreases entries.len(),
{
    if entries.len() == 0 {
        Seq::empty()
    } else {
        rows_seq(rel, entries.drop_last()) + row_seq(rel, entries.last())
    }
}

/// Renders one listing row.
fn build_row(rel: &str, e: &DirectoryEntry) -> (r: String)
    ensures
        r@ == row_seq(rel@, *e),
{
    let icon = e.kind.to_icon();
    let mut href = String::from_str("/");
    if rel.unicode_len() > 0 {
        href.append(rel);
        href.append("/");
    }
    href.append(e.name.as_str());
    proof {
        reveal_strlit("/");
        assert("/"@ =~= seq!['/']);
        assert(href@ =~= entry_href(rel@, e.name@));
    }
    let size_str = match e.size {
        Some(n) => if e.kind.is_dir() {
            String::new()
        } else {
            format_file_size(n)
        },
        None => String::new(),
    };
    let modified_esc = match &e.modified {
        Some(m) => escape_html(m.as_str()),
        None => String::new(),
    };
    proof {
        assert(escape_seq(Seq::<char>::empty()) == Seq::<char>::empty());
        assert(size_str@ == size_text(*e));
        assert(modified_esc@ == escape_seq(modified_text(*e)));
    }
    let row = render(get_entry_html(), "icon", icon.as_str());
    let row = render(row, "path", escape_html(href.as_str()).as_str());
    let row = render(row, "name", escape_html(e.name.as_str()).as_str());
    let row = render(row, "size", escape_html(size_str.as_str()).as_str());
    let row = render(row, "modified", modified_esc.as_str());
    row
}

/// The listing page: the page template with the escaped directory label
/// and the rows of the rank-ordered entries filled in.
pub open spec fn listing_page_seq(
    label: Seq<char>,
    rel: Seq<char>,
    entries: Seq<DirectoryEntry>,
) -> Seq<char> {
    replace_seq(
        replace_seq(listing_template(), placeholder("directory"@), escape_seq(label)),
        placeholder("entries"@),
        rows_seq(rel, sorted_by_rank(entries)),
    )
}

/// Renders the listing page for a directory without an index file:
/// one row per direct child, ordered directories-then-files by kind rank
/// (enumeration order kept within a rank), every name, size, time and the
/// directory label HTML-escaped. `dir_label` is the heading text;
/// `rel_dir` is the directory's root-relative path (empty for the root),
/// used for the entries' links.
pub fn serve_directory_listing(
    dir_label: &str,
    rel_dir: &str,
    entries: Vec<DirectoryEntry>,
) -> (r: Response)
    ensures
        r.status == 200,
        r.content_type@ == "text/html; charset=utf-8"@,
        r.body matches ResponseBody::Text(s) && s@ == listing_page_seq(
            dir_label@,
            rel_dir@,
            entries@,
        ),
{
    let ghost input = entries@;
    let sorted = sort_entries(entries);
    let mut rows = String::new();
    let mut i: usize = 0;
    proof {
        assert(sorted@.subrange(0, 0) =~= Seq::<DirectoryEntry>::empty());
    }
    while i < sorted.len()
        invariant
            i <= sorted@.len(),
            sorted@ == sorted_by_rank(input),
            rows@ == rows_seq(rel_dir@, sorted@.subrange(0, i as int)),
        decreases sorted@.len() - i,
    {
        let row = build_row(rel_dir, &sorted[i]);
        rows.append(row.as_str());
        proof {
            assert(sorted@.subrange(0, (i + 1) as int).drop_last() =~= sorted@.subrange(
                0,
                i as int,
            ));
            assert(sorted@.subrange(0, (i + 1) as int).last() == sorted@[i as int]);
        }
        i += 1;
    }
    proof {
        assert(sorted@.subrange(0, sorted@.len() as int) =~= sorted@);
    }
    let page = render(get_listing_html(), "directory", escape_html(dir_label).as_str());
    let page = render(page, "entries", rows.as_str());
    Response {
        status: 200,
        content_type: String::from_str("text/html; charset=utf-8"),
        body: ResponseBody::Text(page),
    }
}

} // verus!
