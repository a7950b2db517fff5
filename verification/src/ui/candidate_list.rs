use vstd::prelude::*;
use crate::conf::Color;
use crate::text::chars_of;

verus! {

/// Width of the clip at the left of the candidate list.
pub const CLIP_WIDTH: i32 = 3;
/// Paddings around the text of each label.
pub const LABEL_PADDING_TOP: i32 = 2;
pub const LABEL_PADDING_BOTTOM: i32 = 2;
pub const LABEL_PADDING_LEFT: i32 = 3;
pub const LABEL_PADDING_RIGHT: i32 = 4;
/// Width of the border of the candidate list.
pub const BORDER_WIDTH: i32 = 0;
/// Offset of the candidate list from the composition.
pub const POS_OFFSETX: i32 = 2;
pub const POS_OFFSETY: i32 = 2;

/// Division of integers as Rust does it, rounding toward zero.
pub open spec fn trunc_div(a: int, b: int) -> int {
    if a >= 0 {
        a / b
    } else {
        -((-a) / b)
    }
}

/// The height in pixels of a font of `size` points on a screen of `ppi`
/// pixels per inch.
pub fn font_height(size: i32, ppi: i32) -> (r: i32)
    requires
        i32::MIN <= size * ppi <= i32::MAX,
    ensures
        r == trunc_div(size * ppi, 72),
{
    size * ppi / 72
}

/// The height of the font of the indices: 70% of the height of the font of
/// the candidates.
pub fn index_font_height(height: i32) -> (r: i32)
    requires
        i32::MIN <= height * 70 <= i32::MAX,
    ensures
        r == trunc_div(height * 70, 100),
{
    height * 70 / 100
}

/// `s` with its ASCII letters in lower case.
pub open spec fn ascii_lower(s: Seq<char>) -> Seq<char> {
    s.map_values(|c: char| if 'A' <= c <= 'Z' { ((c as u32) + 32) as char } else { c })
}

/// Whether `t` occurs in `s`.
pub open spec fn occurs(s: Seq<char>, t: Seq<char>) -> bool {
    exists|i: int| 0 <= i && i + t.len() <= s.len() && #[trigger] s.subrange(i, i + t.len()) == t
}

fn lower_chars(s: &str) -> (r: Vec<char>)
    ensures
        r@ == ascii_lower(s@),
{
    let v = chars_of(s);
    let mut r: Vec<char> = Vec::new();
    let mut k: usize = 0;
    while k < v.len()
        invariant
            0 <= k <= v@.len(),
            v@ == s@,
            r@ == ascii_lower(v@.take(k as int)),
        decreases v@.len() - k,
    {
        let c = v[k];
        let l = if 'A' <= c && c <= 'Z' {
            ((c as u32) + 32) as u8 as char
        } else {
            c
        };
        proof {
            if 'A' <= c && c <= 'Z' {
                assert(((c as u32) + 32) as u8 as char == ((c as u32) + 32) as char);
            }
        }
        r.push(l);
        proof {
            assert(ascii_lower(v@.take(k + 1)) =~= ascii_lower(v@.take(k as int)).push(l));
        }
        k = k + 1;
    }
    proof {
        assert(v@.take(v@.len() as int) =~= v@);
    }
    r
}

fn matches_at(s: &Vec<char>, t: &Vec<char>, i: usize) -> (r: bool)
    requires
        i + t@.len() <= s@.len(),
    ensures
        r == (s@.subrange(i as int, i + t@.len()) == t@),
{
    let n = s.len();
    let mut k: usize = 0;
    while k < t.len()
        invariant
            0 <= k <= t@.len(),
            n == s@.len(),
            i + t@.len() <= s@.len(),
            forall|j: int| 0 <= j < k ==> s@[i + j] == t@[j],
        decreases t@.len() - k,
    {
        if s[i + k] != t[k] {
            assert(s@.subrange(i as int, i + t@.len())[k as int] != t@[k as int]);
            return false;
        }
        k = k + 1;
    }
    assert(s@.subrange(i as int, i + t@.len()) =~= t@);
    true
}

fn occurs_exec(s: &Vec<char>, t: &Vec<char>) -> (r: bool)
    ensures
        r == occurs(s@, t@),
{
    if t.len() > s.len() {
        return false;
    }
    let last = s.len() - t.len();
    let mut i: usize = 0;
    loop
        invariant
            t@.len() <= s@.len(),
            last == s@.len() - t@.len(),
            0 <= i <= last,
            forall|j: int| 0 <= j < i ==> #[trigger] s@.subrange(j, j + t@.len()) != t@,
        decreases last - i,
    {
        if matches_at(s, t, i) {
            return true;
        }
        if i == last {
            proof {
                assert forall|j: int| 0 <= j && j + t@.len() <= s@.len() implies #[trigger] s@.subrange(
                    j,
                    j + t@.len(),
                ) != t@ by {
                    assert(j <= i);
                }
            }
            return false;
        }
        i = i + 1;
    }
}

/// Whether the font is monospaced, as its name tells (it names "mono" or
/// "fairfax", in any case).
pub open spec fn mono_font(name: Seq<char>) -> bool {
    occurs(ascii_lower(name), seq!['m', 'o', 'n', 'o']) || occurs(
        ascii_lower(name),
        seq!['f', 'a', 'i', 'r', 'f', 'a', 'x'],
    )
}

/// What follows the number of a candidate: `"."` for a monospaced font,
/// `". "` otherwise.
pub fn index_suffix(font_name: &str) -> (r: &'static str)
    ensures
        r@ == (if mono_font(font_name@) { seq!['.'] } else { seq!['.', ' '] }),
{
    let name = lower_chars(font_name);
    let mut mono: Vec<char> = Vec::new();
    mono.push('m');
    mono.push('o');
    mono.push('n');
    mono.push('o');
    let mut fairfax: Vec<char> = Vec::new();
    fairfax.push('f');
    fairfax.push('a');
    fairfax.push('i');
    fairfax.push('r');
    fairfax.push('f');
    fairfax.push('a');
    fairfax.push('x');
    proof {
        assert(mono@ =~= seq!['m', 'o', 'n', 'o']);
        assert(fairfax@ =~= seq!['f', 'a', 'i', 'r', 'f', 'a', 'x']);
        reveal_strlit(".");
        reveal_strlit(". ");
    }
    if occurs_exec(&name, &mono) || occurs_exec(&name, &fairfax) {
        "."
    } else {
        ". "
    }
}

/// The size of a text as drawn.
#[derive(Clone, Copy)]
pub struct Size {
    pub cx: i32,
    pub cy: i32,
}

/// The largest width of the sizes, 0 when there is none.
pub open spec fn max_cx(s: Seq<Size>) -> int
    decreases s.len(),
{
    if s.len() == 0 {
        0
    } else if max_cx(s.drop_last()) >= s.last().cx {
        max_cx(s.drop_last())
    } else {
        s.last().cx as int
    }
}

/// The largest height of the sizes, 0 when there is none.
pub open spec fn max_cy(s: Seq<Size>) -> int
    decreases s.len(),
{
    if s.len() == 0 {
        0
    } else if max_cy(s.drop_last()) >= s.last().cy {
        max_cy(s.drop_last())
    } else {
        s.last().cy as int
    }
}

/// The width of a horizontal list: the clip, then each label with its
/// paddings, index and candidate.
pub open spec fn row_width(widths: Seq<int>, index_width: int) -> int
    decreases widths.len(),
{
    if widths.len() == 0 {
        CLIP_WIDTH as int
    } else {
        row_width(widths.drop_last(), index_width) + LABEL_PADDING_LEFT + LABEL_PADDING_RIGHT + index_width
            + widths.last()
    }
}

/// The widths of the sizes.
pub open spec fn widths(s: Seq<Size>) -> Seq<int> {
    s.map_values(|x: Size| x.cx as int)
}

/// The geometry of the candidate list.
pub struct PaintArg {
    pub wnd_width: i32,
    pub wnd_height: i32,
    pub highlight_width: i32,
    pub label_height: i32,
    pub row_height: i32,
    pub index_width: i32,
    pub index_height: i32,
    pub candi_widths: Vec<i32>,
    pub candi_height: i32,
}

/// The mathematical value of a [`PaintArg`].
pub struct PaintArgModel {
    pub wnd_width: int,
    pub wnd_height: int,
    pub highlight_width: int,
    pub label_height: int,
    pub row_height: int,
    pub index_width: int,
    pub index_height: int,
    pub candi_widths: Seq<int>,
    pub candi_height: int,
}

impl View for PaintArg {
    type V = PaintArgModel;

    open spec fn view(&self) -> PaintArgModel {
        PaintArgModel {
            wnd_width: self.wnd_width as int,
            wnd_height: self.wnd_height as int,
            highlight_width: self.highlight_width as int,
            label_height: self.label_height as int,
            row_height: self.row_height as int,
            index_width: self.index_width as int,
            index_height: self.index_height as int,
            candi_widths: self.candi_widths@.map_values(|w: i32| w as int),
            candi_height: self.candi_height as int,
        }
    }
}

/// The geometry of the list of candidates whose indices and candidates
/// measure `indices` and `cands`, laid out vertically or in a row.
pub open spec fn layout_of(indices: Seq<Size>, cands: Seq<Size>, vertical: bool) -> PaintArgModel {
    let index_height = max_cy(indices);
    let index_width = max_cx(indices);
    let candi_height = max_cy(cands);
    let candi_width = max_cx(cands);
    let row_height = if candi_height >= index_height { candi_height } else { index_height };
    let label_height = LABEL_PADDING_TOP + row_height + LABEL_PADDING_BOTTOM;
    let n = cands.len() as int;
    let wnd_height = if vertical { n * label_height } else { label_height };
    let w0 = CLIP_WIDTH + LABEL_PADDING_LEFT + index_width + candi_width + LABEL_PADDING_RIGHT;
    let wnd_width = if vertical {
        if w0 >= trunc_div(wnd_height * 4, 5) { w0 } else { trunc_div(wnd_height * 4, 5) }
    } else {
        row_width(widths(cands), index_width)
    };
    PaintArgModel {
        wnd_width: wnd_width + BORDER_WIDTH * 2,
        wnd_height: wnd_height + BORDER_WIDTH * 2,
        highlight_width: if vertical {
            wnd_width + BORDER_WIDTH * 2 - CLIP_WIDTH - BORDER_WIDTH * 2
        } else {
            LABEL_PADDING_LEFT + index_width + cands[0].cx + LABEL_PADDING_RIGHT
        },
        label_height,
        row_height,
        index_width,
        index_height,
        candi_widths: widths(cands),
        candi_height,
    }
}

/// The sizes are those of drawn texts (not negative), and the list they make,
/// in a column or in a row, fits the screen coordinates.
pub open spec fn sizes_fit(indices: Seq<Size>, cands: Seq<Size>, vertical: bool) -> bool {
    let m = layout_of(indices, cands, vertical);
    &&& cands.len() > 0
    &&& indices.len() == cands.len()
    &&& forall|i: int| 0 <= i < indices.len() ==> 0 <= (#[trigger] indices[i]).cx && 0 <= indices[i].cy
    &&& forall|i: int| 0 <= i < cands.len() ==> 0 <= (#[trigger] cands[i]).cx && 0 <= cands[i].cy
    &&& vertical ==> m.label_height * cands.len() * 4 <= i32::MAX
    &&& vertical ==> CLIP_WIDTH + LABEL_PADDING_LEFT + m.index_width + max_cx(cands) + LABEL_PADDING_RIGHT <= i32::MAX
    &&& !vertical ==> m.label_height <= i32::MAX
    &&& !vertical ==> row_width(widths(cands), m.index_width) <= i32::MAX
}

/// The height of `k` labels of height `label`.
pub open spec fn column_height(label: int, k: int) -> int
    decreases k,
{
    if k <= 0 {
        0
    } else {
        column_height(label, k - 1) + label
    }
}

/// How far right the `i`-th label of a row starts from the first one.
pub open spec fn row_offset(widths: Seq<int>, index_width: int, i: int) -> int
    decreases i,
{
    if i <= 0 {
        0
    } else {
        row_offset(widths, index_width, i - 1) + index_width + widths[i - 1] + LABEL_PADDING_LEFT
            + LABEL_PADDING_RIGHT
    }
}

/// The geometry can be painted: it is that of drawn texts, and every
/// position fits the screen coordinates.
pub open spec fn paint_fits(a: PaintArgModel, vertical: bool) -> bool {
    let n = a.candi_widths.len() as int;
    &&& n > 0
    &&& forall|i: int| 0 <= i < n ==> 0 <= #[trigger] a.candi_widths[i]
    &&& 0 <= a.index_width
    &&& 0 <= a.index_height <= a.row_height
    &&& 0 <= a.candi_height <= a.row_height
    &&& a.label_height == LABEL_PADDING_TOP + a.row_height + LABEL_PADDING_BOTTOM
    &&& BORDER_WIDTH * 2 + CLIP_WIDTH + LABEL_PADDING_LEFT + a.index_width <= i32::MAX
    &&& vertical ==> column_height(a.label_height, n) <= i32::MAX
    &&& !vertical ==> row_width(a.candi_widths, a.index_width) <= i32::MAX
}

/// A drawing step of the candidate list.
pub enum Draw {
    /// Fill a rectangle.
    Fill { x: i32, y: i32, width: i32, height: i32, color: u32 },
    /// Write the index (`index`) or the candidate of the `item`-th
    /// suggestion.
    Text { x: i32, y: i32, item: usize, index: bool, color: u32 },
}

/// The mathematical value of a [`Draw`].
pub enum DrawModel {
    Fill { x: int, y: int, width: int, height: int, color: u32 },
    Text { x: int, y: int, item: int, index: bool, color: u32 },
}

impl View for Draw {
    type V = DrawModel;

    open spec fn view(&self) -> DrawModel {
        match self {
            Draw::Fill { x, y, width, height, color } => DrawModel::Fill {
                x: *x as int,
                y: *y as int,
                width: *width as int,
                height: *height as int,
                color: *color,
            },
            Draw::Text { x, y, item, index, color } => DrawModel::Text {
                x: *x as int,
                y: *y as int,
                item: *item as int,
                index: *index,
                color: *color,
            },
        }
    }
}

/// The mathematical values of drawing steps.
pub open spec fn draw_views(v: Seq<Draw>) -> Seq<DrawModel> {
    v.map_values(|d: Draw| d@)
}

/// Where the index of the `i`-th suggestion is written.
pub open spec fn index_pos(a: PaintArgModel, vertical: bool, i: int) -> (int, int) {
    let x0 = BORDER_WIDTH + CLIP_WIDTH + LABEL_PADDING_LEFT;
    let y0 = BORDER_WIDTH + LABEL_PADDING_TOP + trunc_div(a.row_height - a.index_height, 2);
    if vertical {
        (x0, y0 + column_height(a.label_height, i))
    } else {
        (x0 + row_offset(a.candi_widths, a.index_width, i), y0)
    }
}

/// Where the `i`-th candidate is written.
pub open spec fn candi_pos(a: PaintArgModel, vertical: bool, i: int) -> (int, int) {
    let x0 = BORDER_WIDTH + BORDER_WIDTH + CLIP_WIDTH + LABEL_PADDING_LEFT + a.index_width;
    let y0 = BORDER_WIDTH + LABEL_PADDING_TOP + trunc_div(a.row_height - a.candi_height, 2);
    if vertical {
        (x0, y0 + column_height(a.label_height, i))
    } else {
        (x0 + row_offset(a.candi_widths, a.index_width, i), y0)
    }
}

/// The texts of the first `k` suggestions: the index, then the candidate,
/// the first one highlighted.
pub open spec fn texts(a: PaintArgModel, c: Color, vertical: bool, k: int) -> Seq<DrawModel>
    decreases k,
{
    if k <= 0 {
        Seq::empty()
    } else {
        let i = k - 1;
        texts(a, c, vertical, i) + seq![
            DrawModel::Text { x: index_pos(a, vertical, i).0, y: index_pos(a, vertical, i).1, item: i, index: true, color: c.index },
            DrawModel::Text {
                x: candi_pos(a, vertical, i).0,
                y: candi_pos(a, vertical, i).1,
                item: i,
                index: false,
                color: if i == 0 { c.highlighted } else { c.candidate },
            },
        ]
    }
}

/// How the candidate list is painted: the background, the clip, the
/// highlight of the first suggestion, then the texts.
pub open spec fn paint_plan(a: PaintArgModel, c: Color, vertical: bool) -> Seq<DrawModel> {
    seq![
        DrawModel::Fill { x: 0, y: 0, width: a.wnd_width, height: a.wnd_height, color: c.background },
        DrawModel::Fill { x: BORDER_WIDTH as int, y: BORDER_WIDTH as int, width: CLIP_WIDTH as int, height: a.label_height, color: c.clip },
        DrawModel::Fill {
            x: (BORDER_WIDTH + CLIP_WIDTH) as int,
            y: BORDER_WIDTH as int,
            width: a.highlight_width,
            height: a.label_height,
            color: c.highlight,
        },
    ] + texts(a, c, vertical, a.candi_widths.len() as int)
}

proof fn lemma_max_nonneg(s: Seq<Size>)
    ensures
        max_cx(s) >= 0,
        max_cy(s) >= 0,
        max_cx(s) <= i32::MAX,
        max_cy(s) <= i32::MAX,
    decreases s.len(),
{
    if s.len() > 0 {
        lemma_max_nonneg(s.drop_last());
    }
}

proof fn lemma_column_height(label: int, k: int)
    requires
        0 <= k,
    ensures
        column_height(label, k) == label * k,
    decreases k,
{
    if k > 0 {
        lemma_column_height(label, k - 1);
        assert(column_height(label, k) == column_height(label, k - 1) + label);
        assert(label * (k - 1) + label == label * k) by (nonlinear_arith);
    } else {
        assert(label * k == 0) by (nonlinear_arith)
            requires
                k == 0,
        ;
    }
}

proof fn lemma_column_grows(label: int, i: int, k: int)
    requires
        0 <= label,
        0 <= i <= k,
    ensures
        column_height(label, i) <= column_height(label, k),
    decreases k - i,
{
    if i < k {
        lemma_column_grows(label, i, k - 1);
    }
}

proof fn lemma_row_width(ws: Seq<int>, iw: int, k: int)
    requires
        0 <= k <= ws.len(),
    ensures
        row_width(ws.take(k), iw) == CLIP_WIDTH + row_offset(ws, iw, k),
    decreases k,
{
    if k > 0 {
        lemma_row_width(ws, iw, k - 1);
        assert(ws.take(k).drop_last() =~= ws.take(k - 1));
        assert(ws.take(k).last() == ws[k - 1]);
    } else {
        assert(ws.take(0) =~= Seq::<int>::empty());
    }
}

proof fn lemma_row_offset_grows(ws: Seq<int>, iw: int, i: int, k: int)
    requires
        0 <= iw,
        0 <= i <= k <= ws.len(),
        forall|j: int| 0 <= j < ws.len() ==> 0 <= #[trigger] ws[j],
    ensures
        row_offset(ws, iw, i) <= row_offset(ws, iw, k),
        0 <= row_offset(ws, iw, i),
    decreases k - i,
{
    lemma_row_offset_nonneg(ws, iw, i);
    if i < k {
        lemma_row_offset_grows(ws, iw, i, k - 1);
    }
}

proof fn lemma_row_offset_nonneg(ws: Seq<int>, iw: int, i: int)
    requires
        0 <= iw,
        0 <= i <= ws.len(),
        forall|j: int| 0 <= j < ws.len() ==> 0 <= #[trigger] ws[j],
    ensures
        0 <= row_offset(ws, iw, i),
    decreases i,
{
    if i > 0 {
        lemma_row_offset_nonneg(ws, iw, i - 1);
    }
}

/// The geometry of the candidate list: the sizes of the labels, of the
/// window and of the highlight, from the measured sizes of the indices and
/// of the candidates.
pub fn layout(indices: &Vec<Size>, cands: &Vec<Size>, vertical: bool) -> (r: PaintArg)
    requires
        sizes_fit(indices@, cands@, vertical),
    ensures
        r@ == layout_of(indices@, cands@, vertical),
        paint_fits(r@, vertical),
{
    let n = cands.len();
    let mut index_height: i32 = 0;
    let mut index_width: i32 = 0;
    let mut candi_height: i32 = 0;
    let mut candi_width: i32 = 0;
    let mut candi_widths: Vec<i32> = Vec::new();
    let mut k: usize = 0;
    proof {
        assert(indices@.take(0) =~= Seq::<Size>::empty());
        assert(cands@.take(0) =~= Seq::<Size>::empty());
    }
    while k < n
        invariant
            0 <= k <= n,
            n == cands@.len(),
            n == indices@.len(),
            index_height == max_cy(indices@.take(k as int)),
            index_width == max_cx(indices@.take(k as int)),
            candi_height == max_cy(cands@.take(k as int)),
            candi_width == max_cx(cands@.take(k as int)),
            candi_widths@.map_values(|w: i32| w as int) == widths(cands@.take(k as int)),
        decreases n - k,
    {
        let is = indices[k];
        let cs = cands[k];
        proof {
            assert(indices@.take(k + 1).drop_last() =~= indices@.take(k as int));
            assert(cands@.take(k + 1).drop_last() =~= cands@.take(k as int));
            assert(indices@.take(k + 1).last() == is);
            assert(cands@.take(k + 1).last() == cs);
        }
        if !(index_height >= is.cy) {
            index_height = is.cy;
        }
        if !(index_width >= is.cx) {
            index_width = is.cx;
        }
        if !(candi_height >= cs.cy) {
            candi_height = cs.cy;
        }
        if !(candi_width >= cs.cx) {
            candi_width = cs.cx;
        }
        let ghost before = candi_widths@.map_values(|w: i32| w as int);
        candi_widths.push(cs.cx);
        proof {
            assert(candi_widths@.map_values(|w: i32| w as int) =~= before.push(cs.cx as int));
            assert(widths(cands@.take(k + 1)) =~= widths(cands@.take(k as int)).push(cs.cx as int));
        }
        k = k + 1;
    }
    proof {
        assert(indices@.take(n as int) =~= indices@);
        assert(cands@.take(n as int) =~= cands@);
        lemma_max_nonneg(indices@);
        lemma_max_nonneg(cands@);
    }
    let ghost ws = widths(cands@);
    let row_height = if candi_height >= index_height {
        candi_height
    } else {
        index_height
    };
    proof {
        assert(row_height + 4 <= (row_height + 4) * n * 4) by (nonlinear_arith)
            requires
                row_height >= 0,
                n >= 1,
        ;
    }
    let label_height = LABEL_PADDING_TOP + row_height + LABEL_PADDING_BOTTOM;
    let mut wnd_height: i32;
    let mut wnd_width: i32;
    if vertical {
        proof {
            assert(n <= label_height * n * 4) by (nonlinear_arith)
                requires
                    label_height >= 4,
                    n >= 1,
            ;
            assert(label_height * n <= label_height * n * 4) by (nonlinear_arith)
                requires
                    label_height >= 4,
                    n >= 1,
            ;
            assert(label_height * n * 4 == (n * label_height) * 4) by (nonlinear_arith);
        }
        let candi_num = n as i32;
        wnd_height = candi_num * label_height;
        let w0 = CLIP_WIDTH + LABEL_PADDING_LEFT + index_width + candi_width + LABEL_PADDING_RIGHT;
        let q = wnd_height * 4 / 5;
        wnd_width = if w0 >= q {
            w0
        } else {
            q
        };
        proof {
            lemma_column_height(label_height as int, n as int);
        }
    } else {
        wnd_height = label_height;
        wnd_width = CLIP_WIDTH;
        let mut j: usize = 0;
        proof {
            lemma_row_width(ws, index_width as int, n as int);
            assert(ws.take(n as int) =~= ws);
            assert(ws.take(0) =~= Seq::<int>::empty());
        }
        while j < n
            invariant
                0 <= j <= n,
                n == cands@.len(),
                ws == widths(cands@),
                ws.len() == n,
                candi_widths@.map_values(|w: i32| w as int) == ws,
                0 <= index_width,
                forall|i: int| 0 <= i < n ==> 0 <= #[trigger] ws[i],
                row_width(ws, index_width as int) <= i32::MAX,
                row_width(ws, index_width as int) == CLIP_WIDTH + row_offset(ws, index_width as int, n as int),
                wnd_width == row_width(ws.take(j as int), index_width as int),
            decreases n - j,
        {
            proof {
                lemma_row_width(ws, index_width as int, j + 1);
                lemma_row_offset_grows(ws, index_width as int, j + 1, n as int);
                assert(ws.take(j + 1).drop_last() =~= ws.take(j as int));
                assert(ws.take(j + 1).last() == ws[j as int]);
                assert(candi_widths@.map_values(|w: i32| w as int)[j as int] == ws[j as int]);
            }
            wnd_width = wnd_width + (LABEL_PADDING_LEFT + LABEL_PADDING_RIGHT);
            wnd_width = wnd_width + index_width;
            wnd_width = wnd_width + candi_widths[j];
            j = j + 1;
        }
        proof {
            assert(ws.take(n as int) =~= ws);
        }
    }
    wnd_height = wnd_height + BORDER_WIDTH * 2;
    wnd_width = wnd_width + BORDER_WIDTH * 2;
    let highlight_width = if vertical {
        wnd_width - CLIP_WIDTH - BORDER_WIDTH * 2
    } else {
        proof {
            lemma_row_width(ws, index_width as int, 1);
            lemma_row_offset_grows(ws, index_width as int, 1, n as int);
            lemma_row_width(ws, index_width as int, n as int);
            assert(ws.take(n as int) =~= ws);
            assert(candi_widths@.map_values(|w: i32| w as int)[0] == ws[0]);
            assert(row_offset(ws, index_width as int, 0) == 0);
            assert(row_offset(ws, index_width as int, 1) == index_width + ws[0] + 7);
        }
        LABEL_PADDING_LEFT + index_width + candi_widths[0] + LABEL_PADDING_RIGHT
    };
    let r = PaintArg {
        wnd_width,
        wnd_height,
        highlight_width,
        label_height,
        row_height,
        index_width,
        index_height,
        candi_widths,
        candi_height,
    };
    proof {
        assert(r@.candi_widths == ws);
    }
    r
}

/// Whether the measured sizes can be laid out (see [`sizes_fit`]).
pub fn can_layout(indices: &Vec<Size>, cands: &Vec<Size>, vertical: bool) -> (r: bool)
    ensures
        r == sizes_fit(indices@, cands@, vertical),
{
    let n = cands.len();
    if n == 0 || indices.len() != n {
        return false;
    }
    let mut index_height: i32 = 0;
    let mut index_width: i32 = 0;
    let mut candi_height: i32 = 0;
    let mut candi_width: i32 = 0;
    let mut k: usize = 0;
    proof {
        assert(indices@.take(0) =~= Seq::<Size>::empty());
        assert(cands@.take(0) =~= Seq::<Size>::empty());
    }
    while k < n
        invariant
            0 <= k <= n,
            n == cands@.len(),
            n == indices@.len(),
            index_height == max_cy(indices@.take(k as int)),
            index_width == max_cx(indices@.take(k as int)),
            candi_height == max_cy(cands@.take(k as int)),
            candi_width == max_cx(cands@.take(k as int)),
            forall|i: int| 0 <= i < k ==> 0 <= (#[trigger] indices@[i]).cx && 0 <= indices@[i].cy,
            forall|i: int| 0 <= i < k ==> 0 <= (#[trigger] cands@[i]).cx && 0 <= cands@[i].cy,
        decreases n - k,
    {
        let is = indices[k];
        let cs = cands[k];
        if is.cx < 0 || is.cy < 0 || cs.cx < 0 || cs.cy < 0 {
            return false;
        }
        proof {
            assert(indices@.take(k + 1).drop_last() =~= indices@.take(k as int));
            assert(cands@.take(k + 1).drop_last() =~= cands@.take(k as int));
            assert(indices@.take(k + 1).last() == is);
            assert(cands@.take(k + 1).last() == cs);
        }
        if !(index_height >= is.cy) {
            index_height = is.cy;
        }
        if !(index_width >= is.cx) {
            index_width = is.cx;
        }
        if !(candi_height >= cs.cy) {
            candi_height = cs.cy;
        }
        if !(candi_width >= cs.cx) {
            candi_width = cs.cx;
        }
        k = k + 1;
    }
    proof {
        assert(indices@.take(n as int) =~= indices@);
        assert(cands@.take(n as int) =~= cands@);
        lemma_max_nonneg(indices@);
        lemma_max_nonneg(cands@);
    }
    let row_height: i128 = if candi_height >= index_height {
        candi_height as i128
    } else {
        index_height as i128
    };
    let label_height: i128 = LABEL_PADDING_TOP as i128 + row_height + LABEL_PADDING_BOTTOM as i128;
    let count = n as i128;
    proof {
        assert(label_height * count <= 0x1_0000_0000 * 0x1_0000_0000_0000_0000) by (nonlinear_arith)
            requires
                0 <= label_height <= 0x1_0000_0000,
                0 <= count <= 0x1_0000_0000_0000_0000,
        ;
        assert(0 <= label_height * count) by (nonlinear_arith)
            requires
                0 <= label_height,
                0 <= count,
        ;
    }
    if vertical {
        let w0: i64 = CLIP_WIDTH as i64 + LABEL_PADDING_LEFT as i64 + index_width as i64 + candi_width as i64
            + LABEL_PADDING_RIGHT as i64;
        return label_height * count * 4 <= i32::MAX as i128 && w0 <= i32::MAX as i64;
    }
    if label_height > i32::MAX as i128 {
        return false;
    }
    let ghost ws = widths(cands@);
    let mut row: i128 = CLIP_WIDTH as i128;
    let mut j: usize = 0;
    proof {
        assert(ws.take(0) =~= Seq::<int>::empty());
    }
    while j < n
        invariant
            0 <= j <= n,
            n == cands@.len(),
            ws == widths(cands@),
            0 <= index_width <= i32::MAX,
            forall|i: int| 0 <= i < n ==> 0 <= (#[trigger] cands@[i]).cx,
            row == row_width(ws.take(j as int), index_width as int),
            0 <= row <= 3 + j * 0x2_0000_0000,
        decreases n - j,
    {
        proof {
            assert(ws.take(j + 1).drop_last() =~= ws.take(j as int));
            assert(ws.take(j + 1).last() == ws[j as int]);
            assert(ws[j as int] == cands@[j as int].cx);
        }
        row = row + (LABEL_PADDING_LEFT as i128 + LABEL_PADDING_RIGHT as i128) + index_width as i128
            + cands[j].cx as i128;
        j = j + 1;
    }
    proof {
        assert(ws.take(n as int) =~= ws);
    }
    row <= i32::MAX as i128
}

/// How to paint the candidate list (see [`paint_plan`]).
pub fn paint(arg: &PaintArg, colors: &Color, vertical: bool) -> (r: Vec<Draw>)
    requires
        paint_fits(arg@, vertical),
    ensures
        draw_views(r@) == paint_plan(arg@, *colors, vertical),
{
    let ghost a = arg@;
    let ghost ws = a.candi_widths;
    let n = arg.candi_widths.len();
    let mut r: Vec<Draw> = Vec::new();
    r.push(Draw::Fill { x: 0, y: 0, width: arg.wnd_width, height: arg.wnd_height, color: colors.background });
    r.push(Draw::Fill { x: BORDER_WIDTH, y: BORDER_WIDTH, width: CLIP_WIDTH, height: arg.label_height, color: colors.clip });
    r.push(
        Draw::Fill {
            x: BORDER_WIDTH + CLIP_WIDTH,
            y: BORDER_WIDTH,
            width: arg.highlight_width,
            height: arg.label_height,
            color: colors.highlight,
        },
    );
    let ghost head = draw_views(r@);
    proof {
        assert(texts(a, *colors, vertical, 0) =~= Seq::<DrawModel>::empty());
        assert(draw_views(r@) =~= head + texts(a, *colors, vertical, 0));
        assert(column_height(a.label_height, 0) == 0);
        assert(row_offset(ws, a.index_width, 0) == 0);
        lemma_row_width(ws, a.index_width, n as int);
        assert(ws.take(n as int) =~= ws);
        lemma_column_height(a.label_height, n as int);
    }
    let mut index_x: i32 = BORDER_WIDTH + CLIP_WIDTH + LABEL_PADDING_LEFT;
    let mut candi_x: i32 = BORDER_WIDTH + index_x + arg.index_width;
    let mut index_y: i32 = BORDER_WIDTH + LABEL_PADDING_TOP + (arg.row_height - arg.index_height) / 2;
    let mut candi_y: i32 = BORDER_WIDTH + LABEL_PADDING_TOP + (arg.row_height - arg.candi_height) / 2;
    let mut i: usize = 0;
    while i < n
        invariant
            0 <= i <= n,
            n == ws.len(),
            a == arg@,
            ws == a.candi_widths,
            paint_fits(a, vertical),
            vertical ==> column_height(a.label_height, n as int) == a.label_height * n,
            row_width(ws, a.index_width) == CLIP_WIDTH + row_offset(ws, a.index_width, n as int),
            i < n ==> (index_x as int, index_y as int) == index_pos(a, vertical, i as int),
            i < n ==> (candi_x as int, candi_y as int) == candi_pos(a, vertical, i as int),
            draw_views(r@) == head + texts(a, *colors, vertical, i as int),
        decreases n - i,
    {
        let color = if i == 0 {
            colors.highlighted
        } else {
            colors.candidate
        };
        let ghost before = draw_views(r@);
        let t1 = Draw::Text { x: index_x, y: index_y, item: i, index: true, color: colors.index };
        let t2 = Draw::Text { x: candi_x, y: candi_y, item: i, index: false, color };
        proof {
            let ip = index_pos(a, vertical, i as int);
            let cp = candi_pos(a, vertical, i as int);
            assert(t1@ == DrawModel::Text { x: ip.0, y: ip.1, item: i as int, index: true, color: colors.index });
            assert(t2@ == DrawModel::Text {
                x: cp.0,
                y: cp.1,
                item: i as int,
                index: false,
                color: if i == 0 { colors.highlighted } else { colors.candidate },
            });
            assert(texts(a, *colors, vertical, i + 1) == texts(a, *colors, vertical, i as int) + seq![t1@, t2@]);
        }
        r.push(t1);
        r.push(t2);
        proof {
            assert(draw_views(r@) =~= before.push(t1@).push(t2@));
            assert(draw_views(r@) =~= head + texts(a, *colors, vertical, i + 1));
        }
        if i + 1 < n {
            proof {
                if vertical {
                    lemma_column_grows(a.label_height, i + 2, n as int);
                    assert(column_height(a.label_height, i + 1) == column_height(a.label_height, i as int) + a.label_height);
                    assert(column_height(a.label_height, i + 2) == column_height(a.label_height, i + 1) + a.label_height);
                } else {
                    lemma_row_offset_grows(ws, a.index_width, i + 2, n as int);
                    lemma_row_offset_nonneg(ws, a.index_width, i as int);
                    assert(row_offset(ws, a.index_width, i + 1) == row_offset(ws, a.index_width, i as int)
                        + a.index_width + ws[i as int] + 7);
                    assert(row_offset(ws, a.index_width, i + 2) == row_offset(ws, a.index_width, i + 1)
                        + a.index_width + ws[i + 1] + 7);
                    assert(arg.candi_widths@[i as int] as int == ws[i as int]);
                }
            }
            if vertical {
                index_y = index_y + arg.label_height;
                candi_y = candi_y + arg.label_height;
            } else {
                let step = arg.index_width + arg.candi_widths[i] + LABEL_PADDING_LEFT + LABEL_PADDING_RIGHT;
                index_x = index_x + step;
                candi_x = candi_x + step;
            }
        }
        i = i + 1;
    }
    r
}

/// Where the candidate list goes for a composition at `(x, y)`: a little
/// below and to the right.
pub fn list_position(x: i32, y: i32) -> (r: (i32, i32))
    requires
        x + POS_OFFSETX <= i32::MAX,
        y + POS_OFFSETY <= i32::MAX,
    ensures
        r.0 == x + POS_OFFSETX,
        r.1 == y + POS_OFFSETY,
{
    (x + POS_OFFSETX, y + POS_OFFSETY)
}

/// The position of the composition as the system reports it, unless it is
/// abnormal (neither coordinate is positive).
pub fn normal_position(x: i32, y: i32) -> (r: Option<(i32, i32)>)
    ensures
        r == (if x <= 0 && y <= 0 { None } else { Some((x, y)) }),
{
    if x <= 0 && y <= 0 {
        None
    } else {
        Some((x, y))
    }
}

} // verus!
