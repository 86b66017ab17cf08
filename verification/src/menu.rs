use vstd::prelude::*;
use vstd::string::StringExecFns;
use vstd::string::StringSliceAdditionalSpecFns;

use crate::graphics::drawing::{
    draw_elements, drawn_over, lemma_drawn_over_pixels, shape_mask, shape_ok, shapes_of, shapes_ok,
    coordinate_ok, Font,
    ScreenElement, ScreenShape, TextAlign,
};
use crate::images::{image_name, image_name_text, IMAGE_COUNT};
use crate::graphics::framebuffer::{
    in_bounds, lemma_full_and_empty_bytes, pixel_bit, pixel_index, pixel_on, BinaryColor,
    EpdFramebuffer,
};

verus! {

/// `heapless::String<N>`: a UTF-8 string of at most `N` bytes, stored inline.
/// What it holds is known only through `name_chars` and the wrappers below.
#[verifier::external_type_specification]
#[verifier::external_body]
pub struct ExHeaplessString<const N: usize>(heapless::String<N>);

/// Most names a menu holds.
pub const MAX_MENU_ITEMS: usize = 32;

/// Names shown on one page of the menu.
pub const ITEMS_PER_PAGE: usize = 4;

/// A menu entry's name: at most 13 bytes of UTF-8.
pub type MenuName = heapless::String<13>;

/// The text that a menu name holds.
pub uninterp spec fn name_chars(s: heapless::String<13>) -> Seq<char>;

/// `heapless::String::new`: a string that holds nothing.
#[verifier::external_body]
fn name_new() -> (s: heapless::String<13>)
    ensures
        name_chars(s) == Seq::<char>::empty(),
{
    heapless::String::new()
}

/// `heapless::String::push_str`: appends `text` when its bytes fit in what is
/// left of the 13; otherwise fails and leaves the string as it was.
#[verifier::external_body]
fn name_push_str(s: &mut heapless::String<13>, text: &str) -> (r: Result<(), ()>)
    ensures
        r is Ok <==> vstd::utf8::encode_utf8(name_chars(*old(s))).len() + text.spec_bytes().len()
            <= 13,
        r is Ok ==> name_chars(*final(s)) == name_chars(*old(s)) + text@,
        r is Err ==> name_chars(*final(s)) == name_chars(*old(s)),
{
    s.push_str(text)
}

/// `heapless::String::as_str`: the text the string holds, at most 13 bytes
/// and so at most 13 characters.
#[verifier::external_body]
fn name_as_str(s: &heapless::String<13>) -> (t: &str)
    ensures
        t@ == name_chars(*s),
        t@.len() <= 13,
{
    s.as_str()
}

/// The name stored for `text`: the text itself when it fits in 13 bytes, else nothing.
pub open spec fn stored_name(text: &str) -> Seq<char> {
    if text.spec_bytes().len() <= 13 {
        text@
    } else {
        Seq::empty()
    }
}

/// Character of the decimal digit `d`.
pub open spec fn digit_char(d: int) -> char {
    (48 + d) as char
}

/// Decimal digits of `n`, most significant first.
pub open spec fn decimal_chars(n: nat) -> Seq<char>
    decreases n,
{
    if n < 10 {
        seq![digit_char(n as int)]
    } else {
        decimal_chars(n / 10).push(digit_char((n % 10) as int))
    }
}

fn digit_str(d: usize) -> (s: &'static str)
    requires
        d < 10,
    ensures
        s@ == seq![digit_char(d as int)],
{
    proof {
        reveal_strlit("0");
        reveal_strlit("1");
        reveal_strlit("2");
        reveal_strlit("3");
        reveal_strlit("4");
        reveal_strlit("5");
        reveal_strlit("6");
        reveal_strlit("7");
        reveal_strlit("8");
        reveal_strlit("9");
    }
    match d {
        0 => "0",
        1 => "1",
        2 => "2",
        3 => "3",
        4 => "4",
        5 => "5",
        6 => "6",
        7 => "7",
        8 => "8",
        _ => "9",
    }
}

/// Appends the decimal digits of `n`.
fn append_decimal(s: &mut String, n: usize)
    ensures
        final(s)@ == old(s)@ + decimal_chars(n as nat),
    decreases n,
{
    if n >= 10 {
        append_decimal(s, n / 10);
    }
    s.append(digit_str(n % 10));
    assert(final(s)@ =~= old(s)@ + decimal_chars(n as nat));
}

/// Number of pages that `count` names fill.
pub open spec fn page_count(count: int) -> int {
    (count + 3) / 4
}

/// The page number shown: counted from 1, or 0 when there is no page.
pub open spec fn current_page(page_start: int, count: int) -> int {
    if page_count(count) == 0 {
        0
    } else {
        page_start / 4 + 1
    }
}

/// The title at the top.
pub open spec fn title_shape() -> ScreenShape {
    ScreenShape::Text {
        text: "SELECT IMAGE"@,
        x: 100,
        y: 18,
        font: Font::Bold,
        align: TextAlign::Center,
    }
}

/// The page label at the top right: "PAGE current/count".
pub open spec fn page_label_shape(page_start: int, count: int) -> ScreenShape {
    ScreenShape::Text {
        text: "PAGE "@ + decimal_chars(current_page(page_start, count) as nat) + "/"@
            + decimal_chars(page_count(count) as nat),
        x: 190,
        y: 18,
        font: Font::Small,
        align: TextAlign::Right,
    }
}

/// The rule under the title.
pub open spec fn rule_shape() -> ScreenShape {
    ScreenShape::Line { x0: 20, y0: 28, x1: 180, y1: 28 }
}

/// The button help at the bottom.
pub open spec fn help_shape() -> ScreenShape {
    ScreenShape::Text {
        text: "B:Next  A:Show"@,
        x: 100,
        y: 180,
        font: Font::Small,
        align: TextAlign::Center,
    }
}

/// Baseline of row `row` of a page.
pub open spec fn row_y(row: int) -> int {
    45 + row * 14
}

/// A vertical line at `x` from row `top` down to row `bottom`.
pub open spec fn vertical_line(x: i32, top: int, bottom: int) -> ScreenShape {
    ScreenShape::Line { x0: x, y0: top as i32, x1: x, y1: bottom as i32 }
}

/// The cursor before the selected name on the row with baseline `y`: a solid
/// triangle pointing right (►), four columns wide and seven rows high, its tip
/// four rows above the baseline, drawn as four vertical lines.
pub open spec fn cursor_shapes(y: i32) -> Seq<ScreenShape> {
    seq![
        vertical_line(25, y - 7, y - 1),
        vertical_line(26, y - 6, y - 2),
        vertical_line(27, y - 5, y - 3),
        vertical_line(28, y - 4, y - 4),
    ]
}

/// Lists the cursor's lines for the row with baseline `y`.
fn push_cursor(elements: &mut Vec<ScreenElement>, y: i32)
    requires
        45 <= y <= 87,
    ensures
        shapes_of(final(elements)@) == shapes_of(old(elements)@) + cursor_shapes(y),
{
    elements.push(ScreenElement::Line { x0: 25, y0: y - 7, x1: 25, y1: y - 1 });
    elements.push(ScreenElement::Line { x0: 26, y0: y - 6, x1: 26, y1: y - 2 });
    elements.push(ScreenElement::Line { x0: 27, y0: y - 5, x1: 27, y1: y - 3 });
    elements.push(ScreenElement::Line { x0: 28, y0: y - 4, x1: 28, y1: y - 4 });
    assert(shapes_of(elements@) =~= shapes_of(old(elements)@) + cursor_shapes(y));
}

/// What entry `i` of the page starting at `page_start` draws: its name, and
/// a cursor before it when it is the selected one.
pub open spec fn entry_shapes(
    names: Seq<Seq<char>>,
    i: int,
    page_start: int,
    selected: int,
) -> Seq<ScreenShape> {
    let y = row_y(i - page_start) as i32;
    let name = ScreenShape::Text {
        text: names[i],
        x: 40,
        y,
        font: Font::Small,
        align: TextAlign::Left,
    };
    if i == selected {
        cursor_shapes(y).push(name)
    } else {
        seq![name]
    }
}

/// What entries `page_start` up to (not including) `end` draw, in order.
pub open spec fn entries_shapes(
    names: Seq<Seq<char>>,
    page_start: int,
    end: int,
    selected: int,
) -> Seq<ScreenShape>
    decreases end - page_start,
{
    if end <= page_start {
        Seq::empty()
    } else {
        entries_shapes(names, page_start, end - 1, selected) + entry_shapes(
            names,
            end - 1,
            page_start,
            selected,
        )
    }
}

/// Last entry (exclusive) on the page starting at `page_start`.
pub open spec fn page_end(page_start: int, count: int) -> int {
    if page_start + 4 < count {
        page_start + 4
    } else {
        count
    }
}

/// The whole menu screen: title, page label, rule, the entries of the
/// current page, and the button help.
pub open spec fn menu_shapes(
    names: Seq<Seq<char>>,
    selected: int,
    page_start: int,
    count: int,
) -> Seq<ScreenShape> {
    seq![title_shape(), page_label_shape(page_start, count), rule_shape()] + entries_shapes(
        names,
        page_start,
        page_end(page_start, count),
        selected,
    ) + seq![help_shape()]
}

/// The lines among what entry `i` draws: the cursor's four when it is the
/// selected one, none otherwise.
proof fn lemma_entry_lines(
    names: Seq<Seq<char>>,
    i: int,
    page_start: int,
    selected: int,
    is_line: spec_fn(ScreenShape) -> bool,
)
    requires
        forall|s: ScreenShape| #[trigger] is_line(s) == (s is Line),
    ensures
        entry_shapes(names, i, page_start, selected).filter(is_line) == if i == selected {
            cursor_shapes(row_y(i - page_start) as i32)
        } else {
            Seq::empty()
        },
{
    reveal_with_fuel(Seq::filter, 6);
    let y = row_y(i - page_start) as i32;
    let c = cursor_shapes(y);
    let name = ScreenShape::Text {
        text: names[i],
        x: 40,
        y,
        font: Font::Small,
        align: TextAlign::Left,
    };
    assert(!is_line(name));
    if selected == i {
        let e = c.push(name);
        assert(e.drop_last() =~= c);
        assert(e.last() == name);
        let c3 = c.drop_last();
        let c2 = c3.drop_last();
        let c1 = c2.drop_last();
        let c0 = c1.drop_last();
        assert(c0.len() == 0);
        assert(is_line(c[0]) && is_line(c[1]) && is_line(c[2]) && is_line(c[3]));
        assert(c1.last() == c[0] && c2.last() == c[1] && c3.last() == c[2] && c.last() == c[3]);
        assert(c.filter(is_line) =~= c);
    } else {
        assert(seq![name].drop_last() =~= Seq::<ScreenShape>::empty());
    }
}

/// The lines among what entries `page_start` up to `end` draw: the cursor's
/// four on the selected entry's row when it is one of them, none otherwise.
proof fn lemma_entries_lines(
    names: Seq<Seq<char>>,
    page_start: int,
    end: int,
    selected: int,
    is_line: spec_fn(ScreenShape) -> bool,
)
    requires
        forall|s: ScreenShape| #[trigger] is_line(s) == (s is Line),
    ensures
        entries_shapes(names, page_start, end, selected).filter(is_line) == if page_start
            <= selected < end {
            cursor_shapes(row_y(selected - page_start) as i32)
        } else {
            Seq::empty()
        },
    decreases end - page_start,
{
    reveal_with_fuel(Seq::filter, 1);
    if end > page_start {
        let a = entries_shapes(names, page_start, end - 1, selected);
        let b = entry_shapes(names, end - 1, page_start, selected);
        lemma_entries_lines(names, page_start, end - 1, selected, is_line);
        lemma_entry_lines(names, end - 1, page_start, selected, is_line);
        Seq::filter_distributes_over_add(a, b, is_line);
        assert(a.filter(is_line) + b.filter(is_line) =~= if page_start <= selected < end {
            cursor_shapes(row_y(selected - page_start) as i32)
        } else {
            Seq::empty()
        });
    }
}

/// The lines of the menu screen are the rule under the title and, when the
/// menu holds a name, the cursor: its four lines stand before the selected
/// name, on the row with baseline `45 + 14 * (selected - page_start)`,
/// whichever page is shown. So there is exactly one cursor, and it marks the
/// selected name.
pub proof fn lemma_one_cursor_on_selected_row(
    names: Seq<Seq<char>>,
    selected: int,
    page_start: int,
    count: int,
)
    requires
        0 <= count <= 32,
        0 <= selected,
        count == 0 ==> selected == 0,
        count > 0 ==> selected < count,
        page_start == selected / 4 * 4,
    ensures
        count == 0 ==> menu_shapes(names, selected, page_start, count).filter(
            |s: ScreenShape| s is Line,
        ) == seq![(ScreenShape::Line { x0: 20, y0: 28, x1: 180, y1: 28 })],
        count > 0 ==> menu_shapes(names, selected, page_start, count).filter(
            |s: ScreenShape| s is Line,
        ) == ({
            let y = 45 + 14 * (selected - page_start);
            seq![
                ScreenShape::Line { x0: 20, y0: 28, x1: 180, y1: 28 },
                ScreenShape::Line { x0: 25, y0: (y - 7) as i32, x1: 25, y1: (y - 1) as i32 },
                ScreenShape::Line { x0: 26, y0: (y - 6) as i32, x1: 26, y1: (y - 2) as i32 },
                ScreenShape::Line { x0: 27, y0: (y - 5) as i32, x1: 27, y1: (y - 3) as i32 },
                ScreenShape::Line { x0: 28, y0: (y - 4) as i32, x1: 28, y1: (y - 4) as i32 },
            ]
        }),
{
    let is_line = |s: ScreenShape| s is Line;
    reveal_with_fuel(Seq::filter, 4);
    let head = seq![title_shape(), page_label_shape(page_start, count), rule_shape()];
    let end = page_end(page_start, count);
    let body = entries_shapes(names, page_start, end, selected);
    let tail = seq![help_shape()];
    assert(head.drop_last().drop_last().drop_last().len() == 0);
    assert(head.last() == rule_shape());
    assert(head.drop_last().last() == page_label_shape(page_start, count));
    assert(head.drop_last().drop_last().last() == title_shape());
    assert(head.filter(is_line) =~= seq![rule_shape()]);
    assert(tail.drop_last().len() == 0);
    assert(tail.filter(is_line) =~= Seq::<ScreenShape>::empty());
    lemma_entries_lines(names, page_start, end, selected, is_line);
    Seq::filter_distributes_over_add(head, body, is_line);
    Seq::filter_distributes_over_add(head + body, tail, is_line);
    assert(selected / 4 * 4 <= selected < selected / 4 * 4 + 4);
    if count == 0 {
        assert(body.filter(is_line) =~= Seq::<ScreenShape>::empty());
        assert(menu_shapes(names, selected, page_start, count).filter(is_line) =~= seq![
            rule_shape(),
        ]);
    } else {
        let y = 45 + 14 * (selected - page_start);
        assert(page_start <= selected < end);
        assert(row_y(selected - page_start) == y);
        assert(45 <= y <= 87);
        assert(menu_shapes(names, selected, page_start, count).filter(is_line) =~= seq![
            rule_shape(),
        ] + cursor_shapes(y as i32));
    }
}

/// The page label counts pages of four names from 1: the page it names holds
/// the selected name, and the number of pages it gives is the fewest that hold
/// every name, the last of them possibly not full.
pub proof fn lemma_page_label_numbers(selected: int, page_start: int, count: int)
    requires
        0 < count <= 32,
        0 <= selected < count,
        page_start == selected / 4 * 4,
    ensures
        4 * (current_page(page_start, count) - 1) <= selected < 4 * current_page(
            page_start,
            count,
        ),
        4 * (page_count(count) - 1) < count <= 4 * page_count(count),
        current_page(page_start, count) <= page_count(count),
{
}

/// The menu: up to 32 names, the selected one and the page shown, and the
/// frame that the menu screen is drawn into.
pub struct Menu {
    selected_index: usize,
    page_start: usize,
    item_count: usize,
    names: Vec<MenuName>,
    framebuffer: EpdFramebuffer,
}

/// The selection after pressing Next once with `count` names.
pub open spec fn next_selected(selected: int, count: int) -> int {
    if count == 0 {
        selected
    } else {
        (selected + 1) % count
    }
}

/// The selection after pressing Next `n` times.
pub open spec fn selected_after(selected: int, count: int, n: nat) -> int
    decreases n,
{
    if n == 0 {
        selected
    } else {
        next_selected(selected_after(selected, count, (n - 1) as nat), count)
    }
}

/// Pressing Next `n` times moves the selection `n` names on, wrapping
/// around after the last.
pub proof fn lemma_next_cycles(selected: int, count: int, n: nat)
    requires
        count > 0,
        0 <= selected < count,
    ensures
        selected_after(selected, count, n) == (selected + n) % count,
    decreases n,
{
    if n == 0 {
        vstd::arithmetic::div_mod::lemma_small_mod(selected as nat, count as nat);
    } else {
        lemma_next_cycles(selected, count, (n - 1) as nat);
        let x = selected + n - 1;
        vstd::arithmetic::div_mod::lemma_add_mod_noop(x, 1, count);
        if count > 1 {
            vstd::arithmetic::div_mod::lemma_small_mod(1, count as nat);
        }
    }
}

/// Pressing Next once for each name brings the selection, and with it the
/// page shown, back to where it was.
pub proof fn lemma_next_full_cycle(selected: int, count: int)
    requires
        count > 0,
        0 <= selected < count,
    ensures
        selected_after(selected, count, count as nat) == selected,
{
    lemma_next_cycles(selected, count, count as nat);
    vstd::arithmetic::div_mod::lemma_add_mod_noop(selected, count, count);
    vstd::arithmetic::div_mod::lemma_mod_self_0(count);
    vstd::arithmetic::div_mod::lemma_small_mod(selected as nat, count as nat);
}

impl Menu {
    /// Index of the selected name.
    pub closed spec fn selected(&self) -> int {
        self.selected_index as int
    }

    /// Index of the first name on the page shown.
    pub closed spec fn first_on_page(&self) -> int {
        self.page_start as int
    }

    /// Number of names in the menu.
    pub closed spec fn count(&self) -> int {
        self.item_count as int
    }

    /// The 32 name slots; those from `count()` on are not in the menu.
    pub closed spec fn names(&self) -> Seq<Seq<char>> {
        self.names@.map_values(|s: MenuName| name_chars(s))
    }

    /// The frame the menu screen is drawn into.
    pub closed spec fn frame(&self) -> EpdFramebuffer {
        self.framebuffer
    }

    /// The selected name is one of the menu's, or 0 when there are none, and
    /// the page shown is the one that holds it.
    pub open spec fn wf(&self) -> bool {
        &&& self.names().len() == 32
        &&& 0 <= self.count() <= 32
        &&& 0 <= self.selected()
        &&& (self.count() == 0 ==> self.selected() == 0)
        &&& (self.count() > 0 ==> 0 <= self.selected() < self.count())
        &&& self.first_on_page() == self.selected() / 4 * 4
    }

    /// The start-up menu: the images built into the firmware ("Photo 1",
    /// "Photo 2"), the first one selected, the other name slots empty, and a
    /// blank frame.
    pub fn new() -> (m: Self)
        ensures
            m.wf(),
            m.count() == IMAGE_COUNT,
            m.selected() == 0,
            m.first_on_page() == 0,
            m.names() == Seq::new(
                32,
                |i: int|
                    if i < IMAGE_COUNT {
                        image_name_text(i)
                    } else {
                        Seq::<char>::empty()
                    },
            ),
            m.frame()@ == Seq::new(5000, |i: int| 0u8),
    {
        let mut names: Vec<MenuName> = Vec::new();
        let mut i: usize = 0;
        while i < MAX_MENU_ITEMS
            invariant
                i <= 32,
                names@.len() == i,
                forall|j: int| 0 <= j < i ==> name_chars(#[trigger] names@[j]) == Seq::<
                    char,
                >::empty(),
            decreases 32 - i,
        {
            names.push(name_new());
            i = i + 1;
        }
        let mut menu = Self {
            selected_index: 0,
            page_start: 0,
            item_count: 0,
            names,
            framebuffer: EpdFramebuffer::new(),
        };
        assert(menu.names() =~= Seq::new(32, |i: int| Seq::<char>::empty()));
        let mut k: usize = 0;
        while k < IMAGE_COUNT
            invariant
                k <= IMAGE_COUNT,
                menu.wf(),
                menu.count() == k,
                menu.selected() == 0,
                menu.first_on_page() == 0,
                menu.frame()@ == Seq::new(5000, |i: int| 0u8),
                menu.names() == Seq::new(
                    32,
                    |i: int|
                        if i < k {
                            image_name_text(i)
                        } else {
                            Seq::<char>::empty()
                        },
                ),
            decreases IMAGE_COUNT - k,
        {
            let name = image_name(k);
            menu.add_name(name);
            assert(menu.names() =~= Seq::new(
                32,
                |i: int|
                    if i < k + 1 {
                        image_name_text(i)
                    } else {
                        Seq::<char>::empty()
                    },
            ));
            k = k + 1;
        }
        menu
    }

    /// Removes every name; the selection and page go back to the start. The
    /// name slots keep their old text.
    pub fn clear_names(&mut self)
        requires
            old(self).wf(),
        ensures
            final(self).wf(),
            final(self).count() == 0,
            final(self).selected() == 0,
            final(self).first_on_page() == 0,
            final(self).names() == old(self).names(),
            final(self).frame() == old(self).frame(),
    {
        self.selected_index = 0;
        self.page_start = 0;
        self.item_count = 0;
    }

    /// Adds a name at the end of the menu, unless it already holds 32. A name
    /// longer than 13 bytes is added as an empty one.
    pub fn add_name(&mut self, name: &str)
        requires
            old(self).wf(),
        ensures
            final(self).wf(),
            old(self).count() >= 32 ==> *final(self) == *old(self),
            old(self).count() < 32 ==> {
                &&& final(self).count() == old(self).count() + 1
                &&& final(self).names() == old(self).names().update(
                    old(self).count(),
                    stored_name(name),
                )
            },
            final(self).selected() == old(self).selected(),
            final(self).first_on_page() == old(self).first_on_page(),
            final(self).frame() == old(self).frame(),
    {
        if self.item_count >= MAX_MENU_ITEMS {
            return;
        }
        let mut entry = name_new();
        let _ = name_push_str(&mut entry, name);
        assert(vstd::utf8::encode_utf8(Seq::<char>::empty()) =~= Seq::<u8>::empty());
        assert(Seq::<char>::empty() + name@ =~= name@);
        self.names.set(self.item_count, entry);
        self.item_count = self.item_count + 1;
        assert(self.names() =~= old(self).names().update(old(self).count(), stored_name(name)));
    }

    /// The selected name.
    pub fn selected_name(&self) -> (name: &str)
        requires
            self.wf(),
        ensures
            name@ == self.names()[self.selected()],
    {
        name_as_str(&self.names[self.selected_index])
    }

    /// Moves the selection to the next name, from the last back to the first,
    /// turning the page when the selection leaves it.
    pub fn next_image(&mut self)
        requires
            old(self).wf(),
        ensures
            final(self).wf(),
            final(self).selected() == next_selected(old(self).selected(), old(self).count()),
            final(self).count() == old(self).count(),
            final(self).names() == old(self).names(),
            final(self).frame() == old(self).frame(),
    {
        if self.item_count != 0 {
            let ghost s = self.selected_index as int;
            assert(s / 4 * 4 <= s < s / 4 * 4 + 4);
            assert(s + 1 == s / 4 * 4 + 4 ==> (s + 1) / 4 * 4 == s / 4 * 4 + 4);
            assert(s + 1 < s / 4 * 4 + 4 ==> (s + 1) / 4 * 4 == s / 4 * 4);
            proof {
                let c = self.item_count as int;
                if s + 1 < c {
                    vstd::arithmetic::div_mod::lemma_small_mod((s + 1) as nat, c as nat);
                } else {
                    vstd::arithmetic::div_mod::lemma_mod_self_0(c);
                }
            }
            self.selected_index = (self.selected_index + 1) % self.item_count;
            assert(self.selected_index == if s + 1 < self.item_count {
                s + 1
            } else {
                0
            });
            if self.selected_index == 0 {
                self.page_start = 0;
            } else if self.selected_index >= self.page_start + ITEMS_PER_PAGE {
                self.page_start = self.page_start + ITEMS_PER_PAGE;
            }
        }
    }

    /// The frame the menu screen is drawn into.
    pub fn framebuffer(&self) -> (fb: &EpdFramebuffer)
        ensures
            *fb == self.frame(),
    {
        &self.framebuffer
    }

    /// The frame the menu screen is drawn into, to draw the elements that
    /// `draw_menu` lists.
    pub fn framebuffer_mut(&mut self) -> (fb: &mut EpdFramebuffer)
        ensures
            *fb == old(self).frame(),
            final(self).frame() == *final(fb),
            final(self).selected() == old(self).selected(),
            final(self).first_on_page() == old(self).first_on_page(),
            final(self).count() == old(self).count(),
            final(self).names() == old(self).names(),
    {
        &mut self.framebuffer
    }

    /// What the menu screen shows: the title, the page label, a rule, the
    /// names of the current page with a cursor before the selected one, and
    /// the button help.
    pub fn layout(&self) -> (elements: Vec<ScreenElement>)
        requires
            self.wf(),
        ensures
            shapes_of(elements@) == menu_shapes(
                self.names(),
                self.selected(),
                self.first_on_page(),
                self.count(),
            ),
            shapes_ok(shapes_of(elements@)),
            self.count() > 0 ==> shapes_of(elements@).filter(|s: ScreenShape| s is Line) == ({
                let y = 45 + 14 * (self.selected() - self.first_on_page());
                seq![
                    ScreenShape::Line { x0: 20, y0: 28, x1: 180, y1: 28 },
                    ScreenShape::Line { x0: 25, y0: (y - 7) as i32, x1: 25, y1: (y - 1) as i32 },
                    ScreenShape::Line { x0: 26, y0: (y - 6) as i32, x1: 26, y1: (y - 2) as i32 },
                    ScreenShape::Line { x0: 27, y0: (y - 5) as i32, x1: 27, y1: (y - 3) as i32 },
                    ScreenShape::Line { x0: 28, y0: (y - 4) as i32, x1: 28, y1: (y - 4) as i32 },
                ]
            }),
    {
        proof {
            lemma_one_cursor_on_selected_row(
                self.names(),
                self.selected(),
                self.first_on_page(),
                self.count(),
            );
            reveal_strlit("SELECT IMAGE");
            reveal_strlit("PAGE ");
            reveal_strlit("/");
            reveal_strlit("B:Next  A:Show");
        }
        let mut elements: Vec<ScreenElement> = Vec::new();
        elements.push(
            ScreenElement::Text {
                text: String::from_str("SELECT IMAGE"),
                x: 100,
                y: 18,
                font: Font::Bold,
                align: TextAlign::Center,
            },
        );

        let page_count = (self.item_count + ITEMS_PER_PAGE - 1) / ITEMS_PER_PAGE;
        let current_page = if page_count == 0 {
            0
        } else {
            self.page_start / ITEMS_PER_PAGE + 1
        };
        let mut page_label = String::from_str("PAGE ");
        append_decimal(&mut page_label, current_page);
        page_label.append("/");
        append_decimal(&mut page_label, page_count);
        elements.push(
            ScreenElement::Text {
                text: page_label,
                x: 190,
                y: 18,
                font: Font::Small,
                align: TextAlign::Right,
            },
        );
        elements.push(ScreenElement::Line { x0: 20, y0: 28, x1: 180, y1: 28 });

        let ghost names = self.names();
        let ghost sel = self.selected();
        let ghost start = self.first_on_page();
        let ghost prefix = seq![
            title_shape(),
            page_label_shape(start, self.count()),
            rule_shape(),
        ];
        assert(shapes_of(elements@) =~= prefix);
        assert(page_count < 10 && current_page < 10);
        assert(shapes_ok(shapes_of(elements@)));

        let page_end = if self.page_start + ITEMS_PER_PAGE < self.item_count {
            self.page_start + ITEMS_PER_PAGE
        } else {
            self.item_count
        };
        let mut i = self.page_start;
        while i < page_end
            invariant
                self.wf(),
                names == self.names(),
                sel == self.selected(),
                start == self.first_on_page(),
                start <= i,
                page_end == self::page_end(start, self.count()),
                i <= page_end || page_end < start,
                shapes_ok(shapes_of(elements@)),
                shapes_of(elements@) == prefix + entries_shapes(names, start, i as int, sel),
            decreases page_end - i,
        {
            let row = i - self.page_start;
            let y = 45 + (row * 14) as i32;
            let name_text = name_as_str(&self.names[i]);
            let name = String::from_str(name_text);
            assert(row < 4);
            assert(names[i as int] == name_text@);
            assert(45 <= row_y(i - start) <= 87);
            assert(coordinate_ok(row_y(i - start) as i32));
            let ghost before = elements@;
            assert(y == row_y(i - start) as i32);
            if i == self.selected_index {
                push_cursor(&mut elements, y);
                let ghost mid = elements@;
                elements.push(
                    ScreenElement::Text {
                        text: name,
                        x: 40,
                        y,
                        font: Font::Small,
                        align: TextAlign::Left,
                    },
                );
                assert(shapes_of(elements@) =~= shapes_of(mid).push(elements@.last()@));
            } else {
                elements.push(
                    ScreenElement::Text {
                        text: name,
                        x: 40,
                        y,
                        font: Font::Small,
                        align: TextAlign::Left,
                    },
                );
            }
            assert(shapes_of(elements@) =~= shapes_of(before) + entry_shapes(
                names,
                i as int,
                start,
                sel,
            ));
            assert forall|j: int| 0 <= j < shapes_of(elements@).len() implies #[trigger] shape_ok(
                shapes_of(elements@)[j],
            ) by {
                if j < before.len() {
                    assert(shapes_of(elements@)[j] == shapes_of(before)[j]);
                } else {
                    let e = entry_shapes(names, i as int, start, sel);
                    assert(shapes_of(elements@)[j] == e[j - before.len()]);
                }
            }
            i = i + 1;
        }

        let ghost before = elements@;
        elements.push(
            ScreenElement::Text {
                text: String::from_str("B:Next  A:Show"),
                x: 100,
                y: 180,
                font: Font::Small,
                align: TextAlign::Center,
            },
        );
        assert(shapes_of(elements@) =~= shapes_of(before).push(help_shape()));
        assert(shapes_ok(shapes_of(elements@)));
        assert(shapes_of(elements@) =~= menu_shapes(names, sel, start, self.count()));
        elements
    }

    /// Draws the menu screen into the menu's frame, which is cleared first,
    /// and returns the frame's bytes.
    pub fn draw_menu(&mut self) -> (frame: &[u8])
        requires
            old(self).wf(),
        ensures
            final(self).wf(),
            final(self).selected() == old(self).selected(),
            final(self).first_on_page() == old(self).first_on_page(),
            final(self).count() == old(self).count(),
            final(self).names() == old(self).names(),
            final(self).frame()@ == drawn_over(
                Seq::new(5000, |i: int| 0u8),
                menu_shapes(
                    old(self).names(),
                    old(self).selected(),
                    old(self).first_on_page(),
                    old(self).count(),
                ),
            ),
            frame@ == final(self).frame()@,
            forall|x: int, y: int|
                in_bounds(x, y) ==> #[trigger] final(self).frame().pixel(x, y) == exists|i: int|
                    0 <= i < menu_shapes(
                        old(self).names(),
                        old(self).selected(),
                        old(self).first_on_page(),
                        old(self).count(),
                    ).len() && #[trigger] pixel_on(
                        shape_mask(
                            menu_shapes(
                                old(self).names(),
                                old(self).selected(),
                                old(self).first_on_page(),
                                old(self).count(),
                            )[i],
                        ),
                        x,
                        y,
                    ),
    {
        let elements = self.layout();
        self.framebuffer.clear(BinaryColor::Off);
        assert(self.framebuffer@ =~= Seq::new(5000, |i: int| 0u8));
        draw_elements(&mut self.framebuffer, &elements);
        proof {
            let shapes = menu_shapes(
                old(self).names(),
                old(self).selected(),
                old(self).first_on_page(),
                old(self).count(),
            );
            assert forall|x: int, y: int| in_bounds(x, y) implies #[trigger] self.frame().pixel(
                x,
                y,
            ) == exists|i: int|
                0 <= i < shapes.len() && #[trigger] pixel_on(shape_mask(shapes[i]), x, y) by {
                lemma_drawn_over_pixels(Seq::new(5000, |i: int| 0u8), shapes, x, y);
                lemma_full_and_empty_bytes(pixel_bit(pixel_index(x, y)));
            }
        }
        self.framebuffer.buffer()
    }
}

} // verus!
