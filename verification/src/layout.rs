//! Layout: the cells and rows that the table is made of.
use crate::text::{at_left, at_right, control, is_control, joined_pair, left, right, to_chars};
use vstd::prelude::*;
use vstd::utf8::encode_utf8;

verus! {

// ---------------------------------------------------------------------------
// Shortening
// ---------------------------------------------------------------------------
/// The characters of `s` that are no control codes.
pub open spec fn visible(s: Seq<char>) -> Seq<char>
    decreases s.len(),
{
    if s.len() == 0 {
        s
    } else if is_control(s.last()) {
        visible(s.drop_last())
    } else {
        visible(s.drop_last()).push(s.last())
    }
}

/// The first `width` items of `s`, or all of them if there are fewer.
pub open spec fn cut(s: Seq<char>, width: int) -> Seq<char> {
    if s.len() <= width {
        s
    } else {
        s.take(width)
    }
}

/// `s` without its control codes, cut to `width` characters.
pub open spec fn shortened(s: Seq<char>, width: int) -> Seq<char> {
    cut(visible(s), width)
}

pub fn shorten(input: &str, width: usize) -> (r: String)
    ensures
        r@ == shortened(input@, width as int),
{
    let all: Vec<char> = to_chars(input);
    let mut r: String = String::new();
    let mut length: usize = 0;
    for i in 0..all.len()
        invariant
            all@ == input@,
            length == r@.len(),
            length <= width,
            length <= i,
            r@ == shortened(input@.take(i as int), width as int),
    {
        assert(input@.take(i + 1).drop_last() =~= input@.take(i as int));
        let ghost before = visible(input@.take(i as int));
        if !control(all[i]) {
            if length < width {
                r.push(all[i]);
                length += 1;
            } else {
                assert(before.push(all@[i as int]).take(width as int) =~= before.take(
                    width as int,
                ));
                assert(before.take(before.len() as int) =~= before);
            }
        }
    }
    assert(input@.take(input@.len() as int) =~= input@);
    r
}

// ---------------------------------------------------------------------------
// Rows
// ---------------------------------------------------------------------------
/// A row with one cell over the whole width.
pub open spec fn frame_of(text: Seq<char>) -> Seq<char> {
    "| "@ + at_left(shortened(text, 87), 87) + " |"@
}

pub fn frame(text: &str) -> (r: String)
    ensures
        r@ == frame_of(text@),
{
    let mut r: String = "| ".to_owned();
    r.append(left(shorten(text, 87).as_str(), 87).as_str());
    r.append(" |");
    r
}

/// The room that is left for the right half of a title: what the bytes of the left half leave free.
pub open spec fn title_room(text: Seq<char>) -> int {
    87 - encode_utf8(shortened(text, 43)).len()
}

/// A row with one text at the left and one at the right.
pub open spec fn title_of(left: Seq<char>, right: Seq<char>) -> Seq<char> {
    "| "@ + shortened(left, 43) + at_right(shortened(right, 44), title_room(left)) + " |"@
}

pub fn title(left: &str, right: &str) -> (r: String)
    requires
        title_room(left@) >= 0,
    ensures
        r@ == title_of(left@, right@),
{
    let short_left: String = shorten(left, 43);
    let short_right: String = shorten(right, 44);
    let room: usize = 87 - short_left.as_str().len();
    let mut r: String = "| ".to_owned();
    r.append(short_left.as_str());
    r.append(crate::text::right(short_right.as_str(), room).as_str());
    r.append(" |");
    r
}

/// A row with three cells.
pub open spec fn cells_of(left: Seq<char>, middle: Seq<char>, right: Seq<char>) -> Seq<char> {
    "|"@ + left + "|"@ + middle + "|"@ + right + "|"@
}

pub fn cells(left: &str, middle: &str, right: &str) -> (r: String)
    ensures
        r@ == cells_of(left@, middle@, right@),
{
    let mut r: String = "|".to_owned();
    r.append(left);
    r.append("|");
    r.append(middle);
    r.append("|");
    r.append(right);
    r.append("|");
    r
}

// ---------------------------------------------------------------------------
// Cells
// ---------------------------------------------------------------------------
pub open spec fn gpu_name_of(gpu: Seq<char>, name: Seq<char>) -> Seq<char> {
    " "@ + at_left(shortened(gpu, 4), 4) + at_right(shortened(name, 35), 35) + " "@
}

pub fn gpu_name(gpu: &str, name: &str) -> (r: String)
    ensures
        r@ == gpu_name_of(gpu@, name@),
{
    let mut r: String = " ".to_owned();
    r.append(left(shorten(gpu, 4).as_str(), 4).as_str());
    r.append(right(shorten(name, 35).as_str(), 35).as_str());
    r.append(" ");
    r
}

pub open spec fn bus_display_of(bus: Seq<char>, display: Seq<char>) -> Seq<char> {
    " "@ + at_left(shortened(bus, 16), 16) + at_right(shortened(display, 6), 6) + " "@
}

pub fn bus_display(bus: &str, display: &str) -> (r: String)
    ensures
        r@ == bus_display_of(bus@, display@),
{
    let mut r: String = " ".to_owned();
    r.append(left(shorten(bus, 16).as_str(), 16).as_str());
    r.append(right(shorten(display, 6).as_str(), 6).as_str());
    r.append(" ");
    r
}

pub open spec fn temp_power_clocks_of(
    temp: Seq<char>,
    power: Seq<char>,
    clocks: Seq<char>,
) -> Seq<char> {
    " "@ + at_left(shortened(temp, 8), 8) + at_left(shortened(power, 12), 12) + at_right(
        shortened(clocks, 19),
        19,
    ) + " "@
}

pub fn temp_power_clocks(temp: &str, power: &str, clocks: &str) -> (r: String)
    ensures
        r@ == temp_power_clocks_of(temp@, power@, clocks@),
{
    let mut r: String = " ".to_owned();
    r.append(left(shorten(temp, 8).as_str(), 8).as_str());
    r.append(left(shorten(power, 12).as_str(), 12).as_str());
    r.append(right(shorten(clocks, 19).as_str(), 19).as_str());
    r.append(" ");
    r
}

pub open spec fn memory_cell_of(value: Seq<char>) -> Seq<char> {
    at_right(shortened(value, 23), 23) + " "@
}

pub fn memory_cell(value: &str) -> (r: String)
    ensures
        r@ == memory_cell_of(value@),
{
    joined_pair(right(shorten(value, 23).as_str(), 23).as_str(), " ")
}

pub open spec fn right_cell_of(value: Seq<char>) -> Seq<char> {
    at_right(shortened(value, 21), 21) + " "@
}

pub fn right_cell(value: &str) -> (r: String)
    ensures
        r@ == right_cell_of(value@),
{
    joined_pair(right(shorten(value, 21).as_str(), 21).as_str(), " ")
}

// ---------------------------------------------------------------------------
// Laws
// ---------------------------------------------------------------------------
proof fn lemma_visible(s: Seq<char>)
    ensures
        visible(s).len() <= s.len(),
        forall|i: int| 0 <= i < visible(s).len() ==> !is_control(#[trigger] visible(s)[i]),
    decreases s.len(),
{
    if s.len() > 0 {
        lemma_visible(s.drop_last());
    }
}

proof fn lemma_visible_stays(s: Seq<char>)
    requires
        forall|i: int| 0 <= i < s.len() ==> !is_control(#[trigger] s[i]),
    ensures
        visible(s) == s,
    decreases s.len(),
{
    if s.len() > 0 {
        assert forall|i: int| 0 <= i < s.drop_last().len() implies !is_control(
            #[trigger] s.drop_last()[i],
        ) by {
            assert(!is_control(s[i]));
        }
        lemma_visible_stays(s.drop_last());
        assert(s.drop_last().push(s.last()) =~= s);
    }
}

/// A shortened text has at most `width` characters and no control codes, and shortening it again
/// changes nothing.
pub proof fn shortened_fits(s: Seq<char>, width: int)
    requires
        width >= 0,
    ensures
        shortened(s, width).len() <= width,
        forall|i: int|
            0 <= i < shortened(s, width).len() ==> !is_control(#[trigger] shortened(s, width)[i]),
        shortened(shortened(s, width), width) == shortened(s, width),
{
    lemma_visible(s);
    lemma_visible_stays(shortened(s, width));
}

/// A text without control codes that fits is shown as it is.
pub proof fn fitting_text_is_shown(s: Seq<char>, width: int)
    requires
        s.len() <= width,
        forall|i: int| 0 <= i < s.len() ==> !is_control(#[trigger] s[i]),
    ensures
        shortened(s, width) == s,
{
    lemma_visible_stays(s);
}

/// The text `part` stands in `row` from the index `from` on.
pub open spec fn stands_at(row: Seq<char>, part: Seq<char>, from: int) -> bool {
    0 <= from && from + part.len() <= row.len() && row.subrange(from, from + part.len()) == part
}

/// A row with one cell is 91 characters wide.
pub proof fn frame_width(text: Seq<char>)
    ensures
        frame_of(text).len() == 91,
{
    reveal_strlit("| ");
    reveal_strlit(" |");
    shortened_fits(text, 87);
}

/// A title whose left half takes one byte for each character is 91 characters wide, its left half
/// stands at the left and its right half at the right.
pub proof fn title_width(left: Seq<char>, right: Seq<char>)
    requires
        encode_utf8(shortened(left, 43)).len() == shortened(left, 43).len(),
    ensures
        title_room(left) >= 0,
        title_of(left, right).len() == 91,
        stands_at(title_of(left, right), shortened(left, 43), 2),
        stands_at(title_of(left, right), shortened(right, 44), 89 - shortened(right, 44).len()),
{
    reveal_strlit("| ");
    reveal_strlit(" |");
    shortened_fits(left, 43);
    shortened_fits(right, 44);
    let row = title_of(left, right);
    assert(row.subrange(2, 2int + shortened(left, 43).len()) =~= shortened(left, 43));
    assert(row.subrange(89 - shortened(right, 44).len(), 89) =~= shortened(right, 44));
}

/// Every row of names is 91 characters wide, whatever its cells hold, and its columns stand where
/// those of every other such row stand: index and bus id begin, and the name, the display and the
/// last cell end, at the same places.
pub proof fn name_columns_line_up(
    gpu: Seq<char>,
    name: Seq<char>,
    bus: Seq<char>,
    display: Seq<char>,
    last: Seq<char>,
)
    ensures
        ({
            let row = cells_of(
                gpu_name_of(gpu, name),
                bus_display_of(bus, display),
                right_cell_of(last),
            );
            &&& row.len() == 91
            &&& stands_at(row, shortened(gpu, 4), 2)
            &&& stands_at(row, shortened(name, 35), 41 - shortened(name, 35).len())
            &&& stands_at(row, shortened(bus, 16), 44)
            &&& stands_at(row, shortened(display, 6), 66 - shortened(display, 6).len())
            &&& stands_at(row, shortened(last, 21), 89 - shortened(last, 21).len())
        }),
{
    reveal_strlit("|");
    reveal_strlit(" ");
    let g = shortened(gpu, 4);
    let n = shortened(name, 35);
    let b = shortened(bus, 16);
    let d = shortened(display, 6);
    let l = shortened(last, 21);
    shortened_fits(gpu, 4);
    shortened_fits(name, 35);
    shortened_fits(bus, 16);
    shortened_fits(display, 6);
    shortened_fits(last, 21);
    let row = cells_of(gpu_name_of(gpu, name), bus_display_of(bus, display), right_cell_of(last));
    assert(row.len() == 91);
    assert(row.subrange(2, 2int + g.len()) =~= g);
    assert(row.subrange(41 - n.len(), 41) =~= n);
    assert(row.subrange(44, 44int + b.len()) =~= b);
    assert(row.subrange(66 - d.len(), 66) =~= d);
    assert(row.subrange(89 - l.len(), 89) =~= l);
}

/// The same of the rows of readings: temperature and power begin, and the clocks, the memory and
/// the last cell end, at the same places in each.
pub proof fn reading_columns_line_up(
    temp: Seq<char>,
    power: Seq<char>,
    clocks: Seq<char>,
    memory: Seq<char>,
    last: Seq<char>,
)
    ensures
        ({
            let row = cells_of(
                temp_power_clocks_of(temp, power, clocks),
                memory_cell_of(memory),
                right_cell_of(last),
            );
            &&& row.len() == 91
            &&& stands_at(row, shortened(temp, 8), 2)
            &&& stands_at(row, shortened(power, 12), 10)
            &&& stands_at(row, shortened(clocks, 19), 41 - shortened(clocks, 19).len())
            &&& stands_at(row, shortened(memory, 23), 66 - shortened(memory, 23).len())
            &&& stands_at(row, shortened(last, 21), 89 - shortened(last, 21).len())
        }),
{
    reveal_strlit("|");
    reveal_strlit(" ");
    let t = shortened(temp, 8);
    let p = shortened(power, 12);
    let c = shortened(clocks, 19);
    let m = shortened(memory, 23);
    let l = shortened(last, 21);
    shortened_fits(temp, 8);
    shortened_fits(power, 12);
    shortened_fits(clocks, 19);
    shortened_fits(memory, 23);
    shortened_fits(last, 21);
    let row = cells_of(
        temp_power_clocks_of(temp, power, clocks),
        memory_cell_of(memory),
        right_cell_of(last),
    );
    assert(row.len() == 91);
    assert(row.subrange(2, 2int + t.len()) =~= t);
    assert(row.subrange(10, 10int + p.len()) =~= p);
    assert(row.subrange(41 - c.len(), 41) =~= c);
    assert(row.subrange(66 - m.len(), 66) =~= m);
    assert(row.subrange(89 - l.len(), 89) =~= l);
}

/// A shortened text is the beginning of what is visible, and as much of it as fits.
pub proof fn shortened_is_the_beginning(s: Seq<char>, width: int)
    requires
        width >= 0,
        forall|i: int|
            0 <= i < s.len() ==> ' ' <= #[trigger] s[i] <= '~' || s[i] >= '\u{a0}',
    ensures
        shortened(s, width) == if s.len() <= width {
            s
        } else {
            s.take(width)
        },
{
    assert forall|i: int| 0 <= i < s.len() implies !is_control(#[trigger] s[i]) by {
        assert(' ' <= s[i] <= '~' || s[i] >= '\u{a0}');
    }
    lemma_visible_stays(s);
}

proof fn lemma_visible_pair(a: Seq<char>, b: Seq<char>)
    ensures
        visible(a + b) == visible(a) + visible(b),
    decreases b.len(),
{
    if b.len() == 0 {
        assert(a + b =~= a);
        assert(visible(a) + visible(b) =~= visible(a));
    } else {
        assert((a + b).drop_last() =~= a + b.drop_last());
        assert((a + b).last() == b.last());
        lemma_visible_pair(a, b.drop_last());
        assert((visible(a) + visible(b.drop_last())).push(b.last()) =~= visible(a) + visible(
            b.drop_last(),
        ).push(b.last()));
    }
}

/// Control codes are left out wherever they stand: the two blocks of them, and nothing else.
pub proof fn control_codes_are_left_out(a: Seq<char>, code: char, b: Seq<char>, width: int)
    requires
        code as u32 <= 0x1f || 0x7f <= code as u32 <= 0x9f,
    ensures
        shortened(a + seq![code] + b, width) == shortened(a + b, width),
{
    reveal_with_fuel(visible, 2);
    let one = seq![code];
    lemma_visible_pair(a + one, b);
    lemma_visible_pair(a, one);
    lemma_visible_pair(a, b);
    assert(one.drop_last() =~= Seq::<char>::empty());
    assert(visible(one) =~= Seq::<char>::empty());
    assert(visible(a) + visible(one) =~= visible(a));
}

/// A row with one cell holds the text from its third character on, and spaces behind it.
pub proof fn frames_hold_their_text(text: Seq<char>)
    ensures
        stands_at(frame_of(text), shortened(text, 87), 2),
        frame_of(text)[0] == '|' && frame_of(text)[1] == ' ',
        frame_of(text)[89] == ' ' && frame_of(text)[90] == '|',
        forall|i: int|
            2 + shortened(text, 87).len() <= i < 90 ==> #[trigger] frame_of(text)[i] == ' ',
{
    reveal_strlit("| ");
    reveal_strlit(" |");
    shortened_fits(text, 87);
    let s = shortened(text, 87);
    assert(frame_of(text).subrange(2, 2int + s.len()) =~= s);
}

/// What the left half of a title takes in bytes is taken from the room of the right half, which
/// stands at the end of that room.
pub proof fn titles_share_their_room(left: Seq<char>, right: Seq<char>)
    requires
        title_room(left) >= shortened(right, 44).len(),
    ensures
        ({
            let row = title_of(left, right);
            let r = shortened(right, 44);
            &&& row.len() == 91 + shortened(left, 43).len() - encode_utf8(shortened(left, 43)).len()
            &&& stands_at(row, shortened(left, 43), 2)
            &&& stands_at(row, r, row.len() - 2 - r.len())
        }),
{
    reveal_strlit("| ");
    reveal_strlit(" |");
    let row = title_of(left, right);
    let l = shortened(left, 43);
    let r = shortened(right, 44);
    assert(row.subrange(2, 2int + l.len()) =~= l);
    assert(row.subrange(row.len() - 2 - r.len(), row.len() - 2) =~= r);
}

} // verus!
