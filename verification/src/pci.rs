//! The PCI id database: a text that names vendors, their devices, and boards that carry them.
//!
//! A vendor stands on a line without a tab, its devices below it behind one tab, and the boards of
//! a device below that behind two. Lines that begin with `#` are comments.
use crate::number::{
    hex, hex_digits, hex_is_in_its_case, hex_of, hex_reads_back, is_small_hex, number, numbers_of,
    small_hex_is_unique,
};
use crate::text::{
    digit, has_prefix, is_space, joined, lines, lines_of, lines_stand_between_line_feeds, optional,
    starts_with, strip_prefix, texts, to_chars, trim, trimmed, trimmed_has_no_space_at_its_ends,
    trimming_takes_only_space, without_prefix,
};
use vstd::prelude::*;

verus! {

/// What the line of a device begins with.
pub open spec fn device_mark(device_id: u16) -> Seq<char> {
    seq!['\t'] + hex_of(device_id as nat, 4, false) + "  "@
}

/// What the line of a board begins with.
pub open spec fn board_mark(subsystem_vendor: u16, subsystem_id: u16) -> Seq<char> {
    "\t\t"@ + hex_of(subsystem_vendor as nat, 4, false) + " "@ + hex_of(
        subsystem_id as nat,
        4,
        false,
    ) + "  "@
}

/// A line that says nothing.
pub open spec fn is_idle(line: Seq<char>) -> bool {
    line.len() == 0 || line[0] == '#'
}

/// A line that names a vendor.
pub open spec fn is_vendor(line: Seq<char>) -> bool {
    !is_idle(line) && line[0] != '\t'
}

/// The line at `k` stands in a section of AMD's: the last vendor up to it is AMD.
pub open spec fn in_amd(lines: Seq<Seq<char>>, k: int) -> bool
    decreases k + 1,
{
    if k < 0 {
        false
    } else if is_vendor(lines[k]) {
        has_prefix(lines[k], "1002  "@)
    } else {
        in_amd(lines, k - 1)
    }
}

/// The line at `k` names the device: it stands in a section of AMD's, with the device's number.
pub open spec fn names_device(lines: Seq<Seq<char>>, k: int, device_id: u16) -> bool {
    in_amd(lines, k) && has_prefix(lines[k], device_mark(device_id))
}

/// The line at `k` stands below the device: the last device of AMD's up to it, with no vendor
/// between, is the one looked up.
pub open spec fn in_device(lines: Seq<Seq<char>>, k: int, device_id: u16) -> bool
    decreases k + 1,
{
    if k < 0 || is_vendor(lines[k]) {
        false
    } else if in_amd(lines, k) && !is_idle(lines[k]) && !has_prefix(lines[k], "\t\t"@) {
        has_prefix(lines[k], device_mark(device_id))
    } else {
        in_device(lines, k - 1, device_id)
    }
}

/// The line at `k` names the board.
pub open spec fn names_board(
    lines: Seq<Seq<char>>,
    k: int,
    device_id: u16,
    mark: Seq<char>,
) -> bool {
    in_device(lines, k, device_id) && has_prefix(lines[k], "\t\t"@) && has_prefix(lines[k], mark)
}

/// The line at `k` ends the search: another vendor, behind the device.
pub open spec fn ends_search(lines: Seq<Seq<char>>, k: int, device_id: u16) -> bool {
    is_vendor(lines[k]) && !has_prefix(lines[k], "1002  "@) && exists|j: int|
        0 <= j < k && #[trigger] names_device(lines, j, device_id)
}

/// The first line from `i` on that names the board or ends the search.
pub open spec fn search_end(
    lines: Seq<Seq<char>>,
    i: int,
    device_id: u16,
    mark: Seq<char>,
) -> int
    decreases lines.len() - i,
{
    if i >= lines.len() || names_board(lines, i, device_id, mark) || ends_search(
        lines,
        i,
        device_id,
    ) {
        i
    } else {
        search_end(lines, i + 1, device_id, mark)
    }
}

/// What the last line that names the device calls it, among the first `n`.
pub open spec fn last_device(lines: Seq<Seq<char>>, n: int, device_id: u16) -> Option<Seq<char>>
    decreases n,
{
    if n <= 0 {
        None
    } else if names_device(lines, n - 1, device_id) {
        Some(trimmed(lines[n - 1].skip(device_mark(device_id).len() as int)))
    } else {
        last_device(lines, n - 1, device_id)
    }
}

/// What the lines call a board: the name on the first line that names the board; if the search ends
/// before there is one, that on the last line that names the device.
pub open spec fn name_by(lines: Seq<Seq<char>>, device_id: u16, mark: Seq<char>) -> Option<
    Seq<char>,
> {
    let n = search_end(lines, 0, device_id, mark);
    if n < lines.len() && names_board(lines, n, device_id, mark) {
        Some(trimmed(lines[n].skip(mark.len() as int)))
    } else {
        last_device(lines, n, device_id)
    }
}

/// The name of an AMD board by the database `ids`.
pub open spec fn name_of(
    ids: Seq<char>,
    device_id: u16,
    subsystem_vendor: u16,
    subsystem_id: u16,
) -> Option<Seq<char>> {
    name_by(
        lines_of(trimmed(ids)),
        device_id,
        board_mark(subsystem_vendor, subsystem_id),
    )
}

// ---------------------------------------------------------------------------
// The search
// ---------------------------------------------------------------------------
/// What has been read on the way to a board.
struct Lookup {
    /// The last vendor was AMD.
    in_amd: bool,
    /// The last device of that vendor was the one looked up.
    in_device: bool,
    /// The name of the device, once it has been read.
    device_name: Option<Seq<char>>,
}

/// What is known behind `line`, if it does not name the board.
spec fn after_line(line: Seq<char>, at: Lookup, device_id: u16) -> Lookup {
    if line[0] != '\t' {
        Lookup { in_amd: has_prefix(line, "1002  "@), in_device: false, ..at }
    } else if at.in_amd && !has_prefix(line, "\t\t"@) {
        match without_prefix(line, device_mark(device_id)) {
            Some(name) => Lookup { in_device: true, device_name: Some(trimmed(name)), ..at },
            None => Lookup { in_device: false, ..at },
        }
    } else {
        at
    }
}

/// The name that `line` gives the board, if it is one of the device's boards.
spec fn board_name(line: Seq<char>, at: Lookup, mark: Seq<char>) -> Option<Seq<char>> {
    if at.in_device && has_prefix(line, "\t\t"@) {
        match without_prefix(line, mark) {
            Some(name) => Some(trimmed(name)),
            None => None,
        }
    } else {
        None
    }
}

/// What the lines name the board, if `at` is known before them: its own name if it has one, else
/// that of the device. The first vendor behind AMD ends the search once the device has been read.
spec fn name_in(
    lines: Seq<Seq<char>>,
    at: Lookup,
    device_id: u16,
    mark: Seq<char>,
) -> Option<Seq<char>>
    decreases lines.len(),
{
    if lines.len() == 0 {
        at.device_name
    } else if is_idle(lines[0]) {
        name_in(lines.skip(1), at, device_id, mark)
    } else {
        match board_name(lines[0], at, mark) {
            Some(name) => Some(name),
            None => {
                let next = after_line(lines[0], at, device_id);
                if next.device_name is Some && !next.in_amd {
                    next.device_name
                } else {
                    name_in(lines.skip(1), next, device_id, mark)
                }
            },
        }
    }
}

/// Nothing has been read yet.
spec fn at_start() -> Lookup {
    Lookup { in_amd: false, in_device: false, device_name: None }
}

/// What is known behind the first `n` lines.
spec fn known_behind(lines: Seq<Seq<char>>, n: int, device_id: u16) -> Lookup {
    Lookup {
        in_amd: in_amd(lines, n - 1),
        in_device: in_device(lines, n - 1, device_id),
        device_name: last_device(lines, n, device_id),
    }
}

proof fn lemma_device_mark(device_id: u16, line: Seq<char>)
    ensures
        device_mark(device_id).len() >= 2,
        has_prefix(line, device_mark(device_id)) ==> !is_idle(line) && line[0] == '\t'
            && !has_prefix(line, "\t\t"@),
        has_prefix(line, "\t\t"@) ==> !is_idle(line) && line[0] == '\t',
{
    reveal_strlit("\t\t");
    let mark = device_mark(device_id);
    hex_digits(device_id as nat, 4, false);
    let digits = hex_of(device_id as nat, 4, false);
    assert(mark[0] == '\t');
    assert(mark[1] == digits[0]);
    assert(digit(digits[0]) < 16);
    if has_prefix(line, mark) {
        assert(line.take(mark.len() as int)[0] == mark[0]);
        assert(line.take(mark.len() as int)[1] == mark[1]);
    }
    if has_prefix(line, "\t\t"@) {
        assert(line.take(2)[0] == "\t\t"@[0]);
        assert(line.take(2)[1] == "\t\t"@[1]);
    }
}

proof fn lemma_last_device(lines: Seq<Seq<char>>, n: int, device_id: u16)
    requires
        0 <= n <= lines.len(),
    ensures
        last_device(lines, n, device_id) is Some <==> exists|j: int|
            0 <= j < n && #[trigger] names_device(lines, j, device_id),
    decreases n,
{
    if n > 0 {
        lemma_last_device(lines, n - 1, device_id);
        if names_device(lines, n - 1, device_id) {
        } else if exists|j: int| 0 <= j < n && #[trigger] names_device(lines, j, device_id) {
            let j = choose|j: int| 0 <= j < n && #[trigger] names_device(lines, j, device_id);
            assert(0 <= j < n - 1);
        }
    }
}

proof fn lemma_in_device(lines: Seq<Seq<char>>, k: int, device_id: u16)
    requires
        k < lines.len(),
        in_device(lines, k, device_id),
    ensures
        exists|j: int| 0 <= j <= k && #[trigger] names_device(lines, j, device_id),
    decreases k + 1,
{
    if in_amd(lines, k) && !is_idle(lines[k]) && !has_prefix(lines[k], "\t\t"@) {
        assert(names_device(lines, k, device_id));
    } else {
        lemma_in_device(lines, k - 1, device_id);
    }
}

/// AMD's section ends with another vendor.
proof fn lemma_section_ends(lines: Seq<Seq<char>>, j: int, m: int) -> (e: int)
    requires
        0 <= j <= m < lines.len(),
        in_amd(lines, j),
        !in_amd(lines, m),
    ensures
        j < e <= m,
        is_vendor(lines[e]),
        !has_prefix(lines[e], "1002  "@),
    decreases m,
{
    if is_vendor(lines[m]) {
        m
    } else {
        lemma_section_ends(lines, j, m - 1)
    }
}

/// As long as nothing ends the search, it goes on with what is known.
proof fn lemma_search(lines: Seq<Seq<char>>, n: int, device_id: u16, mark: Seq<char>)
    requires
        0 <= n <= lines.len(),
        forall|k: int|
            0 <= k < n ==> !(#[trigger] names_board(lines, k, device_id, mark)) && !ends_search(
                lines,
                k,
                device_id,
            ),
    ensures
        name_in(lines, at_start(), device_id, mark) == name_in(
            lines.skip(n),
            known_behind(lines, n, device_id),
            device_id,
            mark,
        ),
    decreases n,
{
    if n == 0 {
        assert(lines.skip(0) =~= lines);
    } else {
        let k = n - 1;
        let line = lines[k];
        let at = known_behind(lines, k, device_id);
        lemma_search(lines, k, device_id, mark);
        lemma_device_mark(device_id, line);
        lemma_last_device(lines, k, device_id);
        assert(lines.skip(k)[0] == line);
        assert(lines.skip(k).skip(1) =~= lines.skip(n));
        assert(!names_board(lines, k, device_id, mark));
        assert(!ends_search(lines, k, device_id));
        if is_idle(line) {
            assert(known_behind(lines, n, device_id) == at);
        } else {
            assert(board_name(line, at, mark) is None);
            let next = after_line(line, at, device_id);
            assert(next == known_behind(lines, n, device_id));
            if next.device_name is Some && !next.in_amd {
                assert(last_device(lines, k, device_id) is Some);
                let j = choose|j: int| 0 <= j < k && #[trigger] names_device(lines, j, device_id);
                let e = lemma_section_ends(lines, j, k);
                assert(ends_search(lines, e, device_id));
                assert(!names_board(lines, e, device_id, mark));
            }
        }
    }
}

proof fn lemma_search_end(lines: Seq<Seq<char>>, i: int, device_id: u16, mark: Seq<char>)
    requires
        0 <= i <= lines.len(),
    ensures
        ({
            let n = search_end(lines, i, device_id, mark);
            &&& i <= n <= lines.len()
            &&& n < lines.len() ==> names_board(lines, n, device_id, mark) || ends_search(
                lines,
                n,
                device_id,
            )
            &&& forall|k: int|
                i <= k < n ==> !(#[trigger] names_board(lines, k, device_id, mark)) && !ends_search(
                    lines,
                    k,
                    device_id,
                )
        }),
    decreases lines.len() - i,
{
    if i < lines.len() && !names_board(lines, i, device_id, mark) && !ends_search(
        lines,
        i,
        device_id,
    ) {
        lemma_search_end(lines, i + 1, device_id, mark);
    }
}

/// The search finds the name.
proof fn lemma_name_in(lines: Seq<Seq<char>>, device_id: u16, mark: Seq<char>)
    ensures
        name_in(lines, at_start(), device_id, mark) == name_by(lines, device_id, mark),
{
    let n = search_end(lines, 0, device_id, mark);
    lemma_search_end(lines, 0, device_id, mark);
    lemma_search(lines, n, device_id, mark);
    if n < lines.len() {
        let line = lines[n];
        assert(lines.skip(n)[0] == line);
        lemma_device_mark(device_id, line);
        lemma_last_device(lines, n, device_id);
    } else {
        assert(lines.skip(n).len() == 0);
    }
}

fn write_device_mark(device_id: u16) -> (r: String)
    ensures
        r@ == device_mark(device_id),
{
    let mut r: String = String::new();
    r.push('\t');
    r.append(hex(device_id as u32, 4, false).as_str());
    r.append("  ");
    assert(r@ =~= device_mark(device_id));
    r
}

fn write_board_mark(subsystem_vendor: u16, subsystem_id: u16) -> (r: String)
    ensures
        r@ == board_mark(subsystem_vendor, subsystem_id),
{
    let mut r: String = "\t\t".to_owned();
    r.append(hex(subsystem_vendor as u32, 4, false).as_str());
    r.append(" ");
    r.append(hex(subsystem_id as u32, 4, false).as_str());
    r.append("  ");
    r
}

/// Looks up the name of an AMD board in the contents of the database.
pub fn pci_name(ids: &str, device_id: u16, subsystem_vendor: u16, subsystem_id: u16) -> (r: Option<
    String,
>)
    ensures
        optional(r) == name_of(ids@, device_id, subsystem_vendor, subsystem_id),
{
    let all: Vec<String> = lines(trim(ids).as_str());
    let device: String = write_device_mark(device_id);
    let board: String = write_board_mark(subsystem_vendor, subsystem_id);
    let mut in_amd: bool = false;
    let mut in_device: bool = false;
    let mut device_name: Option<String> = None;
    let ghost whole = texts(all@);
    assert(whole.skip(0) =~= whole);
    proof {
        lemma_name_in(whole, device_id, board@);
    }
    for i in 0..all.len()
        invariant
            whole == texts(all@),
            device@ == device_mark(device_id),
            name_in(whole, at_start(), device_id, board@) == name_in(
                whole.skip(i as int),
                Lookup { in_amd, in_device, device_name: optional(device_name) },
                device_id,
                board@,
            ),
            name_in(whole, at_start(), device_id, board@) == name_by(whole, device_id, board@),
            whole == lines_of(trimmed(ids@)),
            board@ == board_mark(subsystem_vendor, subsystem_id),
    {
        let line: &str = all[i].as_str();
        assert(whole.skip(i as int)[0] == line@);
        assert(whole.skip(i as int).skip(1) =~= whole.skip(i + 1));
        let chars: Vec<char> = to_chars(line);
        if chars.len() > 0 && chars[0] != '#' {
            if chars[0] != '\t' {
                in_amd = starts_with(line, "1002  ");
                in_device = false;
                assert(!has_prefix(line@, "\t\t"@)) by {
                    reveal_strlit("\t\t");
                    if has_prefix(line@, "\t\t"@) {
                        assert(line@.take(2)[0] == "\t\t"@[0]);
                    }
                }
            } else if in_amd && !starts_with(line, "\t\t") {
                match strip_prefix(line, device.as_str()) {
                    Some(rest) => {
                        in_device = true;
                        device_name = Some(trim(rest.as_str()));
                    },
                    None => {
                        in_device = false;
                    },
                }
            } else if in_device && starts_with(line, "\t\t") {
                match strip_prefix(line, board.as_str()) {
                    Some(rest) => {
                        return Some(trim(rest.as_str()));
                    },
                    None => {},
                }
            }
            if device_name.is_some() && !in_amd {
                return device_name;
            }
        }
    }
    device_name
}

// ---------------------------------------------------------------------------
// Laws
// ---------------------------------------------------------------------------
proof fn lemma_idle_line(
    before: Seq<Seq<char>>,
    line: Seq<char>,
    behind: Seq<Seq<char>>,
    at: Lookup,
    device_id: u16,
    mark: Seq<char>,
)
    requires
        is_idle(line),
    ensures
        name_in(before + seq![line] + behind, at, device_id, mark) == name_in(
            before + behind,
            at,
            device_id,
            mark,
        ),
    decreases before.len(),
{
    let long = before + seq![line] + behind;
    let short = before + behind;
    if before.len() == 0 {
        assert(long[0] == line);
        assert(long.skip(1) =~= short);
    } else {
        let rest = before.skip(1);
        assert(long[0] == before[0] && short[0] == before[0]);
        assert(long.skip(1) =~= rest + seq![line] + behind);
        assert(short.skip(1) =~= rest + behind);
        lemma_idle_line(rest, line, behind, at, device_id, mark);
        lemma_idle_line(
            rest,
            line,
            behind,
            after_line(before[0], at, device_id),
            device_id,
            mark,
        );
    }
}

/// Comments and empty lines make no difference, wherever they stand.
pub proof fn idle_lines_do_not_matter(
    before: Seq<Seq<char>>,
    line: Seq<char>,
    behind: Seq<Seq<char>>,
    device_id: u16,
    mark: Seq<char>,
)
    requires
        line.len() == 0 || line[0] == '#',
    ensures
        name_by(before + seq![line] + behind, device_id, mark) == name_by(
            before + behind,
            device_id,
            mark,
        ),
{
    lemma_idle_line(before, line, behind, at_start(), device_id, mark);
    lemma_name_in(before + seq![line] + behind, device_id, mark);
    lemma_name_in(before + behind, device_id, mark);
}

proof fn lemma_only_amd(lines: Seq<Seq<char>>, device_id: u16, mark: Seq<char>)
    requires
        forall|i: int| 0 <= i < lines.len() ==> !has_prefix(#[trigger] lines[i], "1002  "@),
    ensures
        name_in(lines, at_start(), device_id, mark) is None,
    decreases lines.len(),
{
    if lines.len() > 0 {
        let rest = lines.skip(1);
        assert(!has_prefix(lines[0], "1002  "@));
        assert forall|i: int| 0 <= i < rest.len() implies !has_prefix(
            #[trigger] rest[i],
            "1002  "@,
        ) by {
            assert(rest[i] == lines[i + 1]);
        }
        lemma_only_amd(rest, device_id, mark);
    }
}

/// A database without AMD names nothing.
pub proof fn only_amd_is_looked_up(
    ids: Seq<char>,
    device_id: u16,
    subsystem_vendor: u16,
    subsystem_id: u16,
)
    requires
        forall|i: int|
            0 <= i < lines_of(trimmed(ids)).len() ==> !has_prefix(
                #[trigger] lines_of(trimmed(ids))[i],
                "1002  "@,
            ),
    ensures
        name_of(ids, device_id, subsystem_vendor, subsystem_id) is None,
{
    let mark = board_mark(subsystem_vendor, subsystem_id);
    lemma_only_amd(lines_of(trimmed(ids)), device_id, mark);
    lemma_name_in(lines_of(trimmed(ids)), device_id, mark);
}

/// There is no name exactly if no line names the device in a section of AMD's.
pub proof fn no_name_means_no_device(
    ids: Seq<char>,
    device_id: u16,
    subsystem_vendor: u16,
    subsystem_id: u16,
)
    ensures
        ({
            let lines = lines_of(trimmed(ids));
            name_of(ids, device_id, subsystem_vendor, subsystem_id) is None <==> forall|k: int|
                0 <= k < lines.len() ==> !#[trigger] names_device(lines, k, device_id)
        }),
{
    let lines = lines_of(trimmed(ids));
    let mark = board_mark(subsystem_vendor, subsystem_id);
    let n = search_end(lines, 0, device_id, mark);
    lemma_search_end(lines, 0, device_id, mark);
    lemma_last_device(lines, n, device_id);
    if n < lines.len() && names_board(lines, n, device_id, mark) {
        lemma_in_device(lines, n, device_id);
        let j = choose|j: int| 0 <= j <= n && #[trigger] names_device(lines, j, device_id);
        assert(names_device(lines, j, device_id));
    } else if last_device(lines, n, device_id) is Some {
        let j = choose|j: int| 0 <= j < n && #[trigger] names_device(lines, j, device_id);
        assert(names_device(lines, j, device_id));
    }
}

proof fn lemma_last_device_is_trimmed(lines: Seq<Seq<char>>, n: int, device_id: u16)
    ensures
        last_device(lines, n, device_id) matches Some(name) ==> trimmed(name) == name,
    decreases n,
{
    if n > 0 {
        trimmed_has_no_space_at_its_ends(lines[n - 1].skip(device_mark(device_id).len() as int));
        lemma_last_device_is_trimmed(lines, n - 1, device_id);
    }
}

/// A name has no white space at its ends.
pub proof fn names_are_trimmed(
    ids: Seq<char>,
    device_id: u16,
    subsystem_vendor: u16,
    subsystem_id: u16,
)
    ensures
        name_of(ids, device_id, subsystem_vendor, subsystem_id) matches Some(name) ==> trimmed(name)
            == name,
{
    let lines = lines_of(trimmed(ids));
    let mark = board_mark(subsystem_vendor, subsystem_id);
    let n = search_end(lines, 0, device_id, mark);
    trimmed_has_no_space_at_its_ends(lines[n].skip(mark.len() as int));
    lemma_last_device_is_trimmed(lines, n, device_id);
}

/// Four hexadecimal digits in small letters that write the number `n`.
pub open spec fn writes(digits: Seq<char>, n: u16) -> bool {
    &&& digits.len() == 4
    &&& forall|i: int| 0 <= i < 4 ==> is_small_hex(#[trigger] digits[i])
    &&& number(digits, 16, 0xffff) == Some(n as nat)
}

proof fn lemma_writes(digits: Seq<char>, n: u16)
    requires
        writes(digits, n),
    ensures
        hex_of(n as nat, 4, false) == digits,
{
    small_hex_is_unique(digits);
    assert(is_small_hex(digits[0]));
}

/// The line of a device begins with a tab, the four digits of its number in small letters, and two
/// spaces; that of a board with two tabs, the digits of the two numbers with a space between them,
/// and two spaces.
pub proof fn lines_begin_with_numbers_in_small_letters(
    device_id: u16,
    digits: Seq<char>,
    subsystem_vendor: u16,
    vendor_digits: Seq<char>,
    subsystem_id: u16,
    board_digits: Seq<char>,
)
    requires
        writes(digits, device_id),
        writes(vendor_digits, subsystem_vendor),
        writes(board_digits, subsystem_id),
    ensures
        device_mark(device_id) == seq!['\t'] + digits + seq![' ', ' '],
        board_mark(subsystem_vendor, subsystem_id) == seq!['\t', '\t'] + vendor_digits + seq![' ']
            + board_digits + seq![' ', ' '],
{
    lemma_writes(digits, device_id);
    lemma_writes(vendor_digits, subsystem_vendor);
    lemma_writes(board_digits, subsystem_id);
    reveal_strlit("  ");
    reveal_strlit(" ");
    reveal_strlit("\t\t");
    assert("  "@ =~= seq![' ', ' ']);
    assert(" "@ =~= seq![' ']);
    assert("\t\t"@ =~= seq!['\t', '\t']);
}

/// Every number has such digits.
pub proof fn every_number_is_written(n: u16) -> (digits: Seq<char>)
    ensures
        writes(digits, n),
{
    let digits = hex_of(n as nat, 4, false);
    hex_is_in_its_case(n as nat, 4, false);
    assert(n < numbers_of(4, 16)) by {
        reveal_with_fuel(numbers_of, 5);
    }
    hex_reads_back(n as nat, 4, false, 0xffff);
    digits
}

/// A line that belongs to the vendor above it: it begins with a tab, or says nothing.
pub open spec fn is_below_vendor(line: Seq<char>) -> bool {
    line.len() == 0 || line[0] == '#' || line[0] == '\t'
}

proof fn lemma_in_section(lines: Seq<Seq<char>>, v: int, k: int)
    requires
        0 <= v <= k < lines.len(),
        has_prefix(lines[v], "1002  "@),
        forall|i: int| v < i < lines.len() ==> is_below_vendor(#[trigger] lines[i]),
    ensures
        in_amd(lines, k),
    decreases k,
{
    if k == v {
        reveal_strlit("1002  ");
        assert(lines[v].take(6)[0] == "1002  "@[0]);
    } else {
        assert(is_below_vendor(lines[k]));
        lemma_in_section(lines, v, k - 1);
    }
}

proof fn lemma_last_device_is(lines: Seq<Seq<char>>, n: int, k: int, device_id: u16)
    requires
        0 <= k < n <= lines.len(),
        names_device(lines, k, device_id),
        forall|i: int| k < i < n ==> !has_prefix(#[trigger] lines[i], device_mark(device_id)),
    ensures
        last_device(lines, n, device_id) == Some(
            trimmed(lines[k].skip(device_mark(device_id).len() as int)),
        ),
    decreases n,
{
    if n - 1 > k {
        assert(!has_prefix(lines[n - 1], device_mark(device_id)));
        lemma_last_device_is(lines, n - 1, k, device_id);
    }
}

/// A device is called what stands on the last of its lines in AMD's section, whatever its number
/// is, if there is no line of the board.
pub proof fn a_device_is_named_by_its_line(
    lines: Seq<Seq<char>>,
    v: int,
    k: int,
    device_id: u16,
    digits: Seq<char>,
    name: Seq<char>,
    mark: Seq<char>,
)
    requires
        writes(digits, device_id),
        0 <= v < k < lines.len(),
        has_prefix(lines[v], "1002  "@),
        forall|i: int| v < i < lines.len() ==> is_below_vendor(#[trigger] lines[i]),
        lines[k] == seq!['\t'] + digits + seq![' ', ' '] + name,
        forall|i: int|
            0 <= i < v || k < i < lines.len() ==> !has_prefix(
                #[trigger] lines[i],
                seq!['\t'] + digits + seq![' ', ' '],
            ),
        forall|i: int| 0 <= i < lines.len() ==> !has_prefix(#[trigger] lines[i], mark),
    ensures
        name_by(lines, device_id, mark) == Some(trimmed(name)),
{
    let head = seq!['\t'] + digits + seq![' ', ' '];
    lines_begin_with_numbers_in_small_letters(
        device_id,
        digits,
        device_id,
        digits,
        device_id,
        digits,
    );
    assert(device_mark(device_id) == head);
    lemma_in_section(lines, v, k);
    assert(lines[k].take(head.len() as int) =~= head);
    assert(lines[k].skip(head.len() as int) =~= name);
    assert(names_device(lines, k, device_id));
    let n = search_end(lines, 0, device_id, mark);
    lemma_search_end(lines, 0, device_id, mark);
    if n < lines.len() {
        assert(!has_prefix(lines[n], mark));
        assert(ends_search(lines, n, device_id));
        let j = choose|j: int| 0 <= j < n && #[trigger] names_device(lines, j, device_id);
        if j < v {
            assert(!has_prefix(lines[j], head));
        }
        assert(is_below_vendor(lines[n]));
    }
    lemma_last_device_is(lines, n, k, device_id);
}

/// A board is called what stands on the first of its lines below the device.
pub proof fn a_board_is_named_by_its_line(
    lines: Seq<Seq<char>>,
    v: int,
    k: int,
    b: int,
    device_id: u16,
    digits: Seq<char>,
    mark: Seq<char>,
    name: Seq<char>,
)
    requires
        writes(digits, device_id),
        0 <= v < k < b < lines.len(),
        has_prefix(lines[v], "1002  "@),
        forall|i: int| v < i < lines.len() ==> is_below_vendor(#[trigger] lines[i]),
        has_prefix(lines[k], seq!['\t'] + digits + seq![' ', ' ']),
        forall|i: int|
            0 <= i < k ==> !has_prefix(
                #[trigger] lines[i],
                seq!['\t'] + digits + seq![' ', ' '],
            ),
        forall|i: int|
            k < i < b ==> (#[trigger] lines[i]).len() == 0 || lines[i][0] == '#' || has_prefix(
                lines[i],
                seq!['\t', '\t'],
            ),
        has_prefix(mark, seq!['\t', '\t']),
        lines[b] == mark + name,
        forall|i: int| 0 <= i < b ==> !has_prefix(#[trigger] lines[i], mark),
    ensures
        name_by(lines, device_id, mark) == Some(trimmed(name)),
{
    let head = seq!['\t'] + digits + seq![' ', ' '];
    lines_begin_with_numbers_in_small_letters(
        device_id,
        digits,
        device_id,
        digits,
        device_id,
        digits,
    );
    reveal_strlit("\t\t");
    assert("\t\t"@ =~= seq!['\t', '\t']);
    assert(lines[b].take(mark.len() as int) =~= mark);
    assert(lines[b].skip(mark.len() as int) =~= name);
    assert(lines[b].take(2) =~= mark.take(2));
    assert(has_prefix(lines[b], "\t\t"@));
    assert(is_below_vendor(lines[k]));
    lemma_in_section(lines, v, k);
    lemma_device_mark(device_id, lines[k]);
    assert(in_device(lines, k, device_id));
    lemma_stays_in_device(lines, v, k, b, device_id);
    assert(names_board(lines, b, device_id, mark));
    let n = search_end(lines, 0, device_id, mark);
    lemma_search_end(lines, 0, device_id, mark);
    if n > b {
        assert(!names_board(lines, b, device_id, mark));
    }
    if n < b {
        assert(!has_prefix(lines[n], mark));
        assert(ends_search(lines, n, device_id));
        let j = choose|j: int| 0 <= j < n && #[trigger] names_device(lines, j, device_id);
        if j < k {
            assert(!has_prefix(lines[j], head));
        }
        assert(is_below_vendor(lines[n]));
    }
}

proof fn lemma_stays_in_device(lines: Seq<Seq<char>>, v: int, k: int, b: int, device_id: u16)
    requires
        0 <= v < k <= b < lines.len(),
        in_device(lines, k, device_id),
        forall|i: int| v < i < lines.len() ==> is_below_vendor(#[trigger] lines[i]),
        forall|i: int|
            k < i <= b ==> is_idle(#[trigger] lines[i]) || has_prefix(lines[i], "\t\t"@),
    ensures
        in_device(lines, b, device_id),
    decreases b,
{
    if b > k {
        assert(is_below_vendor(lines[b]));
        assert(is_idle(lines[b]) || has_prefix(lines[b], "\t\t"@));
        lemma_stays_in_device(lines, v, k, b - 1, device_id);
    }
}

/// The whole database, as a text: a vendor that is AMD, and a device below it, give the device its
/// name, whatever the numbers are.
pub proof fn a_database_of_one_device_names_it(
    vendor: Seq<char>,
    digits: Seq<char>,
    name: Seq<char>,
    device_id: u16,
    subsystem_vendor: u16,
    subsystem_id: u16,
)
    requires
        writes(digits, device_id),
        forall|i: int| 0 <= i < vendor.len() ==> #[trigger] vendor[i] != '\n' && vendor[i] != '\r',
        forall|i: int| 0 <= i < name.len() ==> #[trigger] name[i] != '\n' && name[i] != '\r',
        name.len() > 0,
        !is_space(name.last()),
    ensures
        name_of(
            "1002  "@ + vendor + seq!['\n', '\t'] + digits + seq![' ', ' '] + name,
            device_id,
            subsystem_vendor,
            subsystem_id,
        ) == Some(trimmed(name)),
{
    reveal_strlit("1002  ");
    let first = "1002  "@ + vendor;
    let head = seq!['\t'] + digits + seq![' ', ' '];
    let second = head + name;
    let lines = seq![first, second];
    let text = "1002  "@ + vendor + seq!['\n', '\t'] + digits + seq![' ', ' '] + name;
    let mark = board_mark(subsystem_vendor, subsystem_id);
    assert(joined(lines, seq!['\n']) =~= text) by {
        assert(lines.drop_last() =~= seq![first]);
        reveal_with_fuel(joined, 2);
    }
    assert forall|i: int, k: int|
        0 <= i < lines.len() && 0 <= k < lines[i].len() implies #[trigger] lines[i][k] != '\n'
        && lines[i][k] != '\r' by {
        if i == 0 {
            if k >= 6 {
                assert(first[k] == vendor[k - 6]);
            }
        } else if 1 <= k < 5 {
            assert(second[k] == digits[k - 1]);
            assert(is_small_hex(digits[k - 1]));
        } else if k >= 7 {
            assert(second[k] == name[k - 7]);
        }
    }
    assert forall|i: int| 0 <= i < lines.len() && (#[trigger] lines[i]).len() > 0 implies lines[i].last()
        != '\r' by {
        assert(lines[i][lines[i].len() - 1] != '\r');
    }
    lines_stand_between_line_feeds(lines);
    assert(text[0] == '1');
    assert(text.last() == name.last());
    let none = Seq::<char>::empty();
    trimming_takes_only_space(none, text, none);
    assert(none + text + none =~= text);
    assert(first.take(6) =~= "1002  "@);
    assert(!has_prefix(first, head)) by {
        if has_prefix(first, head) {
            assert(first.take(head.len() as int)[0] == head[0]);
        }
    }
    lemma_board_mark(subsystem_vendor, subsystem_id);
    assert forall|i: int| 0 <= i < lines.len() implies !has_prefix(#[trigger] lines[i], mark) by {
        if has_prefix(lines[i], mark) {
            assert(lines[i].take(mark.len() as int)[0] == mark[0]);
            assert(lines[i].take(mark.len() as int)[1] == mark[1]);
            if i == 1 {
                assert(second[1] == digits[0]);
                assert(is_small_hex(digits[0]));
            }
        }
    }
    assert(lines[1] == head + name);
    a_device_is_named_by_its_line(lines, 0, 1, device_id, digits, name, mark);
}

proof fn lemma_board_mark(subsystem_vendor: u16, subsystem_id: u16)
    ensures
        board_mark(subsystem_vendor, subsystem_id).len() >= 2,
        board_mark(subsystem_vendor, subsystem_id)[0] == '\t',
        board_mark(subsystem_vendor, subsystem_id)[1] == '\t',
{
    reveal_strlit("\t\t");
}

/// The lines of the database, by the numbers of the device and of the board: the board is called
/// what stands on the first of its lines below the device, which begins with the number of its
/// vendor and its own.
pub proof fn the_database_names_boards(
    ids: Seq<char>,
    v: int,
    k: int,
    b: int,
    device_id: u16,
    digits: Seq<char>,
    subsystem_vendor: u16,
    vendor_digits: Seq<char>,
    subsystem_id: u16,
    board_digits: Seq<char>,
    name: Seq<char>,
)
    requires
        writes(digits, device_id),
        writes(vendor_digits, subsystem_vendor),
        writes(board_digits, subsystem_id),
        ({
            let lines = lines_of(trimmed(ids));
            let device = seq!['\t'] + digits + seq![' ', ' '];
            let board = seq!['\t', '\t'] + vendor_digits + seq![' '] + board_digits + seq![' ', ' '];
            &&& 0 <= v < k < b < lines.len()
            &&& has_prefix(lines[v], "1002  "@)
            &&& forall|i: int| v < i < lines.len() ==> is_below_vendor(#[trigger] lines[i])
            &&& has_prefix(lines[k], device)
            &&& forall|i: int| 0 <= i < k ==> !has_prefix(#[trigger] lines[i], device)
            &&& forall|i: int|
                k < i < b ==> (#[trigger] lines[i]).len() == 0 || lines[i][0] == '#' || has_prefix(
                    lines[i],
                    seq!['\t', '\t'],
                )
            &&& lines[b] == board + name
            &&& forall|i: int| 0 <= i < b ==> !has_prefix(#[trigger] lines[i], board)
        }),
    ensures
        name_of(ids, device_id, subsystem_vendor, subsystem_id) == Some(trimmed(name)),
{
    let board = seq!['\t', '\t'] + vendor_digits + seq![' '] + board_digits + seq![' ', ' '];
    lines_begin_with_numbers_in_small_letters(
        device_id,
        digits,
        subsystem_vendor,
        vendor_digits,
        subsystem_id,
        board_digits,
    );
    assert(board.take(2) =~= seq!['\t', '\t']);
    a_board_is_named_by_its_line(
        lines_of(trimmed(ids)),
        v,
        k,
        b,
        device_id,
        digits,
        board,
        name,
    );
}

/// The same of a device whose board has no line: it is called what stands on the last of its lines.
pub proof fn the_database_names_devices(
    ids: Seq<char>,
    v: int,
    k: int,
    device_id: u16,
    digits: Seq<char>,
    subsystem_vendor: u16,
    vendor_digits: Seq<char>,
    subsystem_id: u16,
    board_digits: Seq<char>,
    name: Seq<char>,
)
    requires
        writes(digits, device_id),
        writes(vendor_digits, subsystem_vendor),
        writes(board_digits, subsystem_id),
        ({
            let lines = lines_of(trimmed(ids));
            let device = seq!['\t'] + digits + seq![' ', ' '];
            let board = seq!['\t', '\t'] + vendor_digits + seq![' '] + board_digits + seq![' ', ' '];
            &&& 0 <= v < k < lines.len()
            &&& has_prefix(lines[v], "1002  "@)
            &&& forall|i: int| v < i < lines.len() ==> is_below_vendor(#[trigger] lines[i])
            &&& lines[k] == device + name
            &&& forall|i: int|
                0 <= i < v || k < i < lines.len() ==> !has_prefix(#[trigger] lines[i], device)
            &&& forall|i: int| 0 <= i < lines.len() ==> !has_prefix(#[trigger] lines[i], board)
        }),
    ensures
        name_of(ids, device_id, subsystem_vendor, subsystem_id) == Some(trimmed(name)),
{
    let board = seq!['\t', '\t'] + vendor_digits + seq![' '] + board_digits + seq![' ', ' '];
    lines_begin_with_numbers_in_small_letters(
        device_id,
        digits,
        subsystem_vendor,
        vendor_digits,
        subsystem_id,
        board_digits,
    );
    a_device_is_named_by_its_line(
        lines_of(trimmed(ids)),
        v,
        k,
        device_id,
        digits,
        name,
        board,
    );
}

/// A line of a vendor that is not AMD.
pub open spec fn is_other_vendor(line: Seq<char>) -> bool {
    line.len() > 0 && line[0] != '#' && line[0] != '\t' && !has_prefix(line, "1002  "@)
}

proof fn lemma_behind_other_vendor(lines: Seq<Seq<char>>, v: int, k: int)
    requires
        0 <= v <= k < lines.len(),
        is_other_vendor(lines[v]),
        forall|i: int| v < i < lines.len() ==> is_below_vendor(#[trigger] lines[i]),
    ensures
        !in_amd(lines, k),
    decreases k,
{
    if k > v {
        assert(is_below_vendor(lines[k]));
        lemma_behind_other_vendor(lines, v, k - 1);
    }
}

/// What stands below another vendor names no device of AMD's, whatever its number is.
pub proof fn devices_of_other_vendors_do_not_count(
    lines: Seq<Seq<char>>,
    v: int,
    device_id: u16,
    digits: Seq<char>,
    mark: Seq<char>,
)
    requires
        writes(digits, device_id),
        0 <= v < lines.len(),
        is_other_vendor(lines[v]),
        forall|i: int| v < i < lines.len() ==> is_below_vendor(#[trigger] lines[i]),
        forall|i: int|
            0 <= i < v ==> !has_prefix(
                #[trigger] lines[i],
                seq!['\t'] + digits + seq![' ', ' '],
            ),
    ensures
        name_by(lines, device_id, mark) is None,
{
    let head = seq!['\t'] + digits + seq![' ', ' '];
    lines_begin_with_numbers_in_small_letters(
        device_id,
        digits,
        device_id,
        digits,
        device_id,
        digits,
    );
    assert forall|j: int| 0 <= j < lines.len() implies !#[trigger] names_device(
        lines,
        j,
        device_id,
    ) by {
        if j < v {
            assert(!has_prefix(lines[j], head));
        } else {
            lemma_behind_other_vendor(lines, v, j);
        }
    }
    let n = search_end(lines, 0, device_id, mark);
    lemma_search_end(lines, 0, device_id, mark);
    lemma_last_device(lines, n, device_id);
    if n < lines.len() && names_board(lines, n, device_id, mark) {
        lemma_in_device(lines, n, device_id);
    }
}

proof fn lemma_same_beginning(a: Seq<Seq<char>>, b: Seq<Seq<char>>, k: int, device_id: u16)
    requires
        k < a.len(),
        k < b.len(),
        forall|i: int| 0 <= i <= k ==> #[trigger] a[i] == b[i],
    ensures
        in_amd(a, k) == in_amd(b, k),
        in_device(a, k, device_id) == in_device(b, k, device_id),
        last_device(a, k + 1, device_id) == last_device(b, k + 1, device_id),
    decreases k + 1,
{
    if k >= 0 {
        assert(a[k] == b[k]);
        lemma_same_beginning(a, b, k - 1, device_id);
    }
}

/// Once the device has been named, the first vendor behind it that is not AMD ends the search: what
/// follows does not matter.
pub proof fn what_follows_the_next_vendor_does_not_matter(
    lines: Seq<Seq<char>>,
    vendor: Seq<char>,
    rest: Seq<Seq<char>>,
    device_id: u16,
    mark: Seq<char>,
)
    requires
        is_other_vendor(vendor),
        name_by(lines, device_id, mark) is Some,
    ensures
        name_by(lines + seq![vendor] + rest, device_id, mark) == name_by(lines, device_id, mark),
{
    let all = lines + seq![vendor] + rest;
    let m = lines.len() as int;
    let n = search_end(lines, 0, device_id, mark);
    let e = search_end(all, 0, device_id, mark);
    lemma_search_end(lines, 0, device_id, mark);
    lemma_search_end(all, 0, device_id, mark);
    assert(all[m] == vendor);
    assert forall|k: int| 0 <= k < m implies all[k] == lines[k] && #[trigger] names_board(
        all,
        k,
        device_id,
        mark,
    ) == names_board(lines, k, device_id, mark) && names_device(all, k, device_id)
        == names_device(lines, k, device_id) && ends_search(all, k, device_id) == ends_search(
        lines,
        k,
        device_id,
    ) by {
        lemma_same_beginning(all, lines, k, device_id);
        assert forall|j: int| 0 <= j < k implies #[trigger] names_device(all, j, device_id)
            == names_device(lines, j, device_id) by {
            lemma_same_beginning(all, lines, j, device_id);
        }
        if ends_search(all, k, device_id) {
            let j = choose|j: int| 0 <= j < k && #[trigger] names_device(all, j, device_id);
            assert(names_device(lines, j, device_id));
        }
        if ends_search(lines, k, device_id) {
            let j = choose|j: int| 0 <= j < k && #[trigger] names_device(lines, j, device_id);
            assert(names_device(all, j, device_id));
        }
    }
    if n < m {
        assert(names_board(all, n, device_id, mark) == names_board(lines, n, device_id, mark));
        if e < n {
            assert(names_board(all, e, device_id, mark) == names_board(lines, e, device_id, mark));
            assert(!names_board(lines, e, device_id, mark));
        }
        assert(e == n);
        lemma_same_beginning(all, lines, n - 1, device_id);
    } else {
        lemma_last_device(lines, m, device_id);
        let j = choose|j: int| 0 <= j < m && #[trigger] names_device(lines, j, device_id);
        assert(names_board(all, j, device_id, mark) == names_board(lines, j, device_id, mark));
        assert(names_device(all, j, device_id));
        assert(ends_search(all, m, device_id));
        if e < m {
            assert(names_board(all, e, device_id, mark) == names_board(lines, e, device_id, mark));
            assert(!names_board(lines, e, device_id, mark));
        }
        assert(!names_board(all, m, device_id, mark));
        assert(e == m);
        lemma_same_beginning(all, lines, m - 1, device_id);
    }
}

} // verus!
