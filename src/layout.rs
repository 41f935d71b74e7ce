//! The sheet layout engine: places icons on a near-square grid, composites
//! their pixels into one sheet and records where each one went.
use vstd::prelude::*;
use crate::grid::{
    ceil_div, ceil_sqrt, cell_col, cell_row, grid_columns, grid_rows, is_ceil_sqrt,
    lemma_cells_disjoint, lemma_ceil_sqrt, lemma_grid_covers,
};
use crate::naming::{file_stem, stem_of};

verus! {

/// A row-major RGBA pixel grid, four bytes (red, green, blue, alpha) per pixel.
#[derive(Debug, Clone)]
pub struct PixelBuffer {
    pub width: u32,
    pub height: u32,
    pub data: Vec<u8>,
}

impl PixelBuffer {
    /// The buffer holds exactly four bytes for each of its pixels.
    pub open spec fn wf(&self) -> bool {
        self.data@.len() == 4 * self.width * self.height
    }

    /// A buffer of the given size over `data`, or `None` where `data` does not
    /// hold exactly four bytes per pixel.
    pub fn new(width: u32, height: u32, data: Vec<u8>) -> (r: Option<PixelBuffer>)
        ensures
            match r {
                Some(b) => b.wf() && b.width == width && b.height == height && b.data@ == data@,
                None => data@.len() != 4 * width * height,
            },
    {
        assert(4 * (width as u128) * (height as u128) <= 4 * 0xffff_ffffu128 * 0xffff_ffffu128)
            by (nonlinear_arith);
        let need: u128 = 4 * (width as u128) * (height as u128);
        if data.len() as u128 == need {
            Some(PixelBuffer { width, height, data })
        } else {
            None
        }
    }
}

/// One discovered icon: the path it was read from and its decoded pixels.
#[derive(Debug, Clone)]
pub struct IconSource {
    pub path: String,
    pub pixels: PixelBuffer,
}

/// Where one icon lies in the sheet.
#[derive(Debug, Clone)]
pub struct IconInfo {
    pub name: String,
    pub x: u32,
    pub y: u32,
    pub width: u32,
    pub height: u32,
}

/// Why no sheet was made.
#[derive(Debug, Clone, Copy, PartialEq, Eq, Structural)]
pub enum SheetError {
    /// There was no icon to place.
    NoIcons,
    /// The icon at `index` differs in size from the first icon.
    SizeMismatch { index: usize },
    /// The sheet's dimensions or byte count do not fit the machine's integers.
    TooLarge,
}

/// The two buffers have the same width and height.
pub open spec fn same_size(a: PixelBuffer, b: PixelBuffer) -> bool {
    a.width == b.width && a.height == b.height
}

/// Every icon has the first icon's size.
pub open spec fn uniform(icons: Seq<IconSource>) -> bool {
    forall|i: int| 0 <= i < icons.len() ==> same_size(#[trigger] icons[i].pixels, icons[0].pixels)
}

/// `k` is the first icon whose size differs from the first icon's.
pub open spec fn is_first_mismatch(icons: Seq<IconSource>, k: int) -> bool {
    &&& 0 < k < icons.len()
    &&& !same_size(icons[k].pixels, icons[0].pixels)
    &&& forall|j: int| 0 <= j < k ==> same_size(#[trigger] icons[j].pixels, icons[0].pixels)
}

/// Width of every cell: the first icon's width.
pub open spec fn icon_width(icons: Seq<IconSource>) -> int {
    icons[0].pixels.width as int
}

/// Height of every cell: the first icon's height.
pub open spec fn icon_height(icons: Seq<IconSource>) -> int {
    icons[0].pixels.height as int
}

/// Columns of the sheet: `ceil(sqrt(n))`.
pub open spec fn sheet_columns(icons: Seq<IconSource>) -> int {
    ceil_sqrt(icons.len()) as int
}

/// Rows of the sheet: `ceil(n / columns)`.
pub open spec fn sheet_rows(icons: Seq<IconSource>) -> int {
    ceil_div(icons.len() as int, sheet_columns(icons))
}

/// Width of the sheet in pixels.
pub open spec fn sheet_width(icons: Seq<IconSource>) -> int {
    icon_width(icons) * sheet_columns(icons)
}

/// Height of the sheet in pixels.
pub open spec fn sheet_height(icons: Seq<IconSource>) -> int {
    icon_height(icons) * sheet_rows(icons)
}

/// The icon count, the sheet's dimensions and its byte count fit the
/// machine's integers.
pub open spec fn fits(icons: Seq<IconSource>) -> bool {
    &&& icons.len() <= u32::MAX
    &&& sheet_width(icons) <= u32::MAX
    &&& sheet_height(icons) <= u32::MAX
    &&& 4 * sheet_width(icons) * sheet_height(icons) <= usize::MAX
}

/// Byte `k` of the sheet: the matching byte of the icon whose grid cell holds
/// that pixel, or zero in a trailing cell that no icon fills.
pub open spec fn sheet_byte(icons: Seq<IconSource>, k: int) -> u8 {
    let w = icon_width(icons);
    let h = icon_height(icons);
    let columns = sheet_columns(icons);
    let p = k / 4;
    let x = p % (w * columns);
    let y = p / (w * columns);
    let i = (y / h) * columns + x / w;
    if i < icons.len() {
        icons[i].pixels.data@[4 * ((y % h) * w + x % w) + k % 4]
    } else {
        0
    }
}

/// The record of icon `i`: its stem as name, the origin of grid cell `i`,
/// and the first icon's size.
pub open spec fn record_for(icons: Seq<IconSource>, i: int, r: IconInfo) -> bool {
    &&& r.name@ == stem_of(icons[i].path@)
    &&& r.x == cell_col(i, sheet_columns(icons)) * icon_width(icons)
    &&& r.y == cell_row(i, sheet_columns(icons)) * icon_height(icons)
    &&& r.width == icon_width(icons)
    &&& r.height == icon_height(icons)
}

/// What a successful layout of `icons` returns.
pub open spec fn layout_post(icons: Seq<IconSource>, sheet: PixelBuffer, records: Seq<IconInfo>) -> bool {
    &&& sheet.wf()
    &&& sheet.width == sheet_width(icons)
    &&& sheet.height == sheet_height(icons)
    &&& forall|k: int| 0 <= k < sheet.data@.len() ==> #[trigger] sheet.data@[k] == sheet_byte(icons, k)
    &&& records.len() == icons.len()
    &&& forall|i: int| 0 <= i < icons.len() ==> record_for(icons, i, #[trigger] records[i])
}

proof fn lemma_offset_bound(a: int, h: int, b: int, w: int)
    requires
        0 <= a < h,
        0 <= b < w,
    ensures
        0 <= a * w + b < w * h,
        0 <= a * w,
{
    assert(0 <= a * w + b < w * h) by (nonlinear_arith)
        requires
            0 <= a < h,
            0 <= b < w,
    ;
    assert(0 <= a * w) by (nonlinear_arith)
        requires
            0 <= a,
            0 <= w,
    ;
}

proof fn lemma_div_below(p: int, d: int, m: int)
    requires
        0 <= p < d * m,
        d > 0,
    ensures
        0 <= p / d < m,
        0 <= p % d < d,
{
    vstd::arithmetic::div_mod::lemma_fundamental_div_mod(p, d);
    let q = p / d;
    assert(0 <= q < m) by (nonlinear_arith)
        requires
            p == d * q + p % d,
            0 <= p % d < d,
            p < d * m,
            p >= 0,
            d > 0,
    ;
}


/// Lays the icons out on a grid of `ceil(sqrt(n))` columns and
/// `ceil(n / columns)` rows of cells of the first icon's size, copies each
/// icon's pixels into its cell in input order, and lists one record per icon
/// in the same order.
pub fn create_spritesheet(icons: &Vec<IconSource>) -> (r: Result<(PixelBuffer, Vec<IconInfo>), SheetError>)
    requires
        forall|i: int| 0 <= i < icons@.len() ==> (#[trigger] icons@[i]).pixels.wf(),
    ensures
        match r {
            Ok((sheet, records)) => {
                &&& icons@.len() > 0
                &&& uniform(icons@)
                &&& fits(icons@)
                &&& layout_post(icons@, sheet, records@)
            },
            Err(SheetError::NoIcons) => icons@.len() == 0,
            Err(SheetError::SizeMismatch { index }) => is_first_mismatch(icons@, index as int),
            Err(SheetError::TooLarge) => {
                &&& icons@.len() > 0
                &&& uniform(icons@)
                &&& !fits(icons@)
            },
        },
{
    let n = icons.len();
    if n == 0 {
        return Err(SheetError::NoIcons);
    }
    let w = icons[0].pixels.width;
    let h = icons[0].pixels.height;
    let mut j: usize = 1;
    while j < n
        invariant
            n == icons@.len(),
            1 <= j <= n,
            w == icons@[0].pixels.width,
            h == icons@[0].pixels.height,
            forall|t: int| 0 <= t < j ==> same_size(#[trigger] icons@[t].pixels, icons@[0].pixels),
        decreases n - j,
    {
        if icons[j].pixels.width != w || icons[j].pixels.height != h {
            return Err(SheetError::SizeMismatch { index: j });
        }
        j = j + 1;
    }
    if n > u32::MAX as usize {
        return Err(SheetError::TooLarge);
    }
    let columns = grid_columns(n as u32);
    proof {
        lemma_grid_covers(n as int, columns as int, ceil_div(n as int, columns as int));
    }
    let rows = grid_rows(n as u32, columns);
    assert(w * columns <= 0xffff_ffff * 65536 && h * rows <= 0xffff_ffff * 65536) by (nonlinear_arith)
        requires
            w <= 0xffff_ffff,
            h <= 0xffff_ffff,
            columns <= 65536,
            rows <= columns,
    ;
    let sw: u64 = w as u64 * columns as u64;
    let sh: u64 = h as u64 * rows as u64;
    if sw > u32::MAX as u64 || sh > u32::MAX as u64 {
        return Err(SheetError::TooLarge);
    }
    assert(4 * (sw as u128) * (sh as u128) <= 4 * 0xffff_ffffu128 * 0xffff_ffffu128) by (nonlinear_arith)
        requires
            sw <= u32::MAX,
            sh <= u32::MAX,
    ;
    let total: u128 = 4 * (sw as u128) * (sh as u128);
    if total > usize::MAX as u128 {
        return Err(SheetError::TooLarge);
    }
    let total = total as usize;
    let data = composite(icons, w as usize, h as usize, columns as usize, rows as usize, total);
    let sheet = PixelBuffer { width: sw as u32, height: sh as u32, data };
    let records = place_records(icons, w, h, columns, rows);
    Ok((sheet, records))
}


/// The sheet's bytes, computed pixel by pixel from the cell each one lies in.
fn composite(icons: &Vec<IconSource>, w: usize, h: usize, columns: usize, rows: usize, total: usize) -> (r: Vec<u8>)
    requires
        icons@.len() > 0,
        uniform(icons@),
        forall|i: int| 0 <= i < icons@.len() ==> (#[trigger] icons@[i]).pixels.wf(),
        w == icon_width(icons@),
        h == icon_height(icons@),
        columns == sheet_columns(icons@),
        rows == sheet_rows(icons@),
        1 <= columns <= 65536,
        rows <= columns,
        w * columns <= u32::MAX,
        h * rows <= u32::MAX,
        total == 4 * (w * columns) * (h * rows),
    ensures
        r@.len() == total,
        forall|k: int| 0 <= k < total ==> #[trigger] r@[k] == sheet_byte(icons@, k),
{
    let n = icons.len();
    let sw: usize = w * columns;
    let sh: usize = h * rows;
    let mut data: Vec<u8> = Vec::new();
    let mut k: usize = 0;
    while k < total
        invariant
            n == icons@.len(),
            n > 0,
            uniform(icons@),
            forall|i: int| 0 <= i < icons@.len() ==> (#[trigger] icons@[i]).pixels.wf(),
            w == icon_width(icons@),
            h == icon_height(icons@),
            columns == sheet_columns(icons@),
            1 <= columns <= 65536,
            rows <= columns,
            sw == w * columns,
            sh == h * rows,
            total == 4 * sw * sh,
            k <= total,
            data@.len() == k,
            forall|t: int| 0 <= t < k ==> #[trigger] data@[t] == sheet_byte(icons@, t),
        decreases total - k,
    {
        let p = k / 4;
        let ch = k % 4;
        proof {
            assert(4 * sw * sh == 4 * (sw * sh)) by (nonlinear_arith);
            assert(sw * sh > 0) by (nonlinear_arith)
                requires
                    4 * (sw * sh) > 0,
            ;
            assert(sw > 0 && sh > 0 && h > 0 && w > 0) by (nonlinear_arith)
                requires
                    sw * sh > 0,
                    sw == w * columns,
                    sh == h * rows,
                    sw >= 0,
                    sh >= 0,
            ;
            lemma_div_below(k as int, 4, (sw * sh) as int);
            lemma_div_below(p as int, sw as int, sh as int);
        }
        let x = p % sw;
        let y = p / sw;
        proof {
            lemma_div_below(y as int, h as int, rows as int);
            lemma_div_below(x as int, w as int, columns as int);
        }
        let col = x / w;
        let row = y / h;
        assert(row * columns + col <= 65536 * 65536 + 65536) by (nonlinear_arith)
            requires
                row < rows,
                rows <= columns,
                columns <= 65536,
                col < columns,
        ;
        let cell: u64 = row as u64 * columns as u64 + col as u64;
        let b: u8 = if cell < n as u64 {
            let i = cell as usize;
            assert(same_size(icons@[i as int].pixels, icons@[0].pixels));
            assert(icons@[i as int].pixels.wf());
            proof {
                lemma_offset_bound((y % h) as int, h as int, (x % w) as int, w as int);
                let a = (y % h) * w + x % w;
                assert(4 * a + ch < 4 * w * h) by (nonlinear_arith)
                    requires
                        a < w * h,
                        ch < 4,
                ;
                assert(icons@[i as int].pixels.data@.len() == 4 * w * h);
            }
            let len = icons[i].pixels.data.len();
            assert(4 * ((y % h) * w + x % w) + ch < len);
            let off = 4 * ((y % h) * w + x % w) + ch;
            icons[i].pixels.data[off]
        } else {
            0
        };
        data.push(b);
        k = k + 1;
    }
    data
}

/// One record per icon, in input order, at the origin of its grid cell.
fn place_records(icons: &Vec<IconSource>, w: u32, h: u32, columns: u32, rows: u32) -> (r: Vec<IconInfo>)
    requires
        icons@.len() > 0,
        w == icon_width(icons@),
        h == icon_height(icons@),
        columns == sheet_columns(icons@),
        columns >= 1,
        icons@.len() <= u32::MAX,
        icons@.len() <= columns * rows,
        w * columns <= u32::MAX,
        h * rows <= u32::MAX,
    ensures
        r@.len() == icons@.len(),
        forall|i: int| 0 <= i < icons@.len() ==> record_for(icons@, i, #[trigger] r@[i]),
{
    let n = icons.len();
    let mut records: Vec<IconInfo> = Vec::new();
    let mut i: usize = 0;
    while i < n
        invariant
            n == icons@.len(),
            n <= columns * rows,
            n <= u32::MAX,
            w == icon_width(icons@),
            h == icon_height(icons@),
            columns == sheet_columns(icons@),
            columns >= 1,
            w * columns <= u32::MAX,
            h * rows <= u32::MAX,
            i <= n,
            records@.len() == i,
            forall|t: int| 0 <= t < i ==> record_for(icons@, t, #[trigger] records@[t]),
        decreases n - i,
    {
        let col = (i as u32) % columns;
        let row = (i as u32) / columns;
        proof {
            lemma_div_below(i as int, columns as int, rows as int);
            assert(col * w <= w * columns) by (nonlinear_arith)
                requires
                    col < columns,
                    w >= 0,
            ;
            assert(row * h <= h * rows) by (nonlinear_arith)
                requires
                    row < rows,
                    h >= 0,
            ;
        }
        let x = col * w;
        let y = row * h;
        let name = file_stem(icons[i].path.as_str());
        records.push(IconInfo { name, x, y, width: w, height: h });
        i = i + 1;
    }
    records
}


proof fn lemma_grid_of(icons: Seq<IconSource>)
    requires
        icons.len() > 0,
    ensures
        sheet_columns(icons) >= 1,
        sheet_columns(icons) * sheet_rows(icons) >= icons.len(),
        sheet_rows(icons) <= sheet_columns(icons),
{
    lemma_ceil_sqrt(icons.len());
    lemma_grid_covers(icons.len() as int, sheet_columns(icons), sheet_rows(icons));
}

/// Laying out the same icons twice gives the same sheet and the same records.
pub proof fn lemma_layout_deterministic(
    icons: Seq<IconSource>,
    sheet1: PixelBuffer,
    records1: Seq<IconInfo>,
    sheet2: PixelBuffer,
    records2: Seq<IconInfo>,
)
    requires
        layout_post(icons, sheet1, records1),
        layout_post(icons, sheet2, records2),
    ensures
        sheet1.width == sheet2.width,
        sheet1.height == sheet2.height,
        sheet1.data@ == sheet2.data@,
        records1.len() == records2.len(),
        forall|i: int|
            0 <= i < records1.len() ==> {
                &&& (#[trigger] records1[i]).name@ == records2[i].name@
                &&& records1[i].x == records2[i].x
                &&& records1[i].y == records2[i].y
                &&& records1[i].width == records2[i].width
                &&& records1[i].height == records2[i].height
            },
{
    assert(sheet1.data@ =~= sheet2.data@) by {
        assert forall|k: int| 0 <= k < sheet1.data@.len() implies sheet1.data@[k] == sheet2.data@[k] by {
            assert(sheet1.data@[k] == sheet_byte(icons, k));
            assert(sheet2.data@[k] == sheet_byte(icons, k));
        }
    }
    assert forall|i: int| 0 <= i < records1.len() implies {
        &&& (#[trigger] records1[i]).name@ == records2[i].name@
        &&& records1[i].x == records2[i].x
        &&& records1[i].y == records2[i].y
        &&& records1[i].width == records2[i].width
        &&& records1[i].height == records2[i].height
    } by {
        assert(record_for(icons, i, records1[i]));
        assert(record_for(icons, i, records2[i]));
    }
}

/// The rectangles of two different records of one layout do not overlap.
pub proof fn lemma_records_disjoint(
    icons: Seq<IconSource>,
    sheet: PixelBuffer,
    records: Seq<IconInfo>,
    i: int,
    j: int,
)
    requires
        layout_post(icons, sheet, records),
        0 <= i < records.len(),
        0 <= j < records.len(),
        i != j,
    ensures
        records[i].x + records[i].width <= records[j].x
            || records[j].x + records[j].width <= records[i].x
            || records[i].y + records[i].height <= records[j].y
            || records[j].y + records[j].height <= records[i].y,
{
    lemma_grid_of(icons);
    assert(record_for(icons, i, records[i]));
    assert(record_for(icons, j, records[j]));
    let w = icon_width(icons);
    let h = icon_height(icons);
    if w == 0 {
        assert(records[i].x == 0 && records[j].x == 0) by (nonlinear_arith)
            requires
                records[i].x == cell_col(i, sheet_columns(icons)) * w,
                records[j].x == cell_col(j, sheet_columns(icons)) * w,
                w == 0,
        ;
    } else if h == 0 {
        assert(records[i].y == 0 && records[j].y == 0) by (nonlinear_arith)
            requires
                records[i].y == cell_row(i, sheet_columns(icons)) * h,
                records[j].y == cell_row(j, sheet_columns(icons)) * h,
                h == 0,
        ;
    } else {
        lemma_cells_disjoint(i, j, sheet_columns(icons), w, h);
    }
}

/// Each record's rectangle lies inside the sheet.
pub proof fn lemma_record_in_sheet(icons: Seq<IconSource>, sheet: PixelBuffer, records: Seq<IconInfo>, i: int)
    requires
        layout_post(icons, sheet, records),
        0 <= i < records.len(),
    ensures
        records[i].x + records[i].width <= sheet.width,
        records[i].y + records[i].height <= sheet.height,
{
    lemma_grid_of(icons);
    assert(record_for(icons, i, records[i]));
    let columns = sheet_columns(icons);
    let rows = sheet_rows(icons);
    let w = icon_width(icons);
    let h = icon_height(icons);
    lemma_div_below(i, columns, rows);
    let col = i % columns;
    let row = i / columns;
    assert(col * w + w <= w * columns) by (nonlinear_arith)
        requires
            0 <= col < columns,
            w >= 0,
    ;
    assert(row * h + h <= h * rows) by (nonlinear_arith)
        requires
            0 <= row < rows,
            h >= 0,
    ;
}

/// Pixel `(px, py)` of icon `i` is found in the sheet at that offset from the
/// origin that icon `i`'s record gives: records and pixels agree.
pub proof fn lemma_record_pixels(
    icons: Seq<IconSource>,
    sheet: PixelBuffer,
    records: Seq<IconInfo>,
    i: int,
    px: int,
    py: int,
    ch: int,
)
    requires
        layout_post(icons, sheet, records),
        0 <= i < records.len(),
        0 <= px < icon_width(icons),
        0 <= py < icon_height(icons),
        0 <= ch < 4,
    ensures
        sheet.data@[4 * ((records[i].y + py) * sheet.width + records[i].x + px) + ch]
            == icons[i].pixels.data@[4 * (py * icon_width(icons) + px) + ch],
{
    lemma_grid_of(icons);
    assert(record_for(icons, i, records[i]));
    let columns = sheet_columns(icons);
    let rows = sheet_rows(icons);
    let w = icon_width(icons);
    let h = icon_height(icons);
    let sw = w * columns;
    let sh = h * rows;
    lemma_div_below(i, columns, rows);
    let col = i % columns;
    let row = i / columns;
    vstd::arithmetic::div_mod::lemma_fundamental_div_mod(i, columns);
    let x = col * w + px;
    let y = row * h + py;
    assert(0 <= x < sw) by (nonlinear_arith)
        requires
            x == col * w + px,
            0 <= col < columns,
            0 <= px < w,
            sw == w * columns,
    ;
    assert(0 <= y < sh) by (nonlinear_arith)
        requires
            y == row * h + py,
            0 <= row < rows,
            0 <= py < h,
            sh == h * rows,
    ;
    let p = y * sw + x;
    let k = 4 * p + ch;
    assert(0 <= p < sw * sh) by (nonlinear_arith)
        requires
            p == y * sw + x,
            0 <= x < sw,
            0 <= y < sh,
    ;
    assert(k < 4 * sw * sh) by (nonlinear_arith)
        requires
            k == 4 * p + ch,
            p < sw * sh,
            ch < 4,
    ;
    assert(k == 4 * ((records[i].y + py) * sheet.width + records[i].x + px) + ch);
    vstd::arithmetic::div_mod::lemma_fundamental_div_mod_converse(k, 4, p, ch);
    vstd::arithmetic::div_mod::lemma_fundamental_div_mod_converse(p, sw, y, x);
    vstd::arithmetic::div_mod::lemma_fundamental_div_mod_converse(y, h, row, py);
    vstd::arithmetic::div_mod::lemma_fundamental_div_mod_converse(x, w, col, px);
    assert(row * columns + col == i) by (nonlinear_arith)
        requires
            i == columns * row + col,
    ;
    assert(sheet.data@[k] == sheet_byte(icons, k));
}

} // verus!
