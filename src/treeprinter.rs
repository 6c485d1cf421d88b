use vstd::prelude::*;

use std::collections::HashMap;

use crate::lexer::chars_of;

verus! {

broadcast use vstd::std_specs::hash::group_hash_axioms;

/// Width of one column of a printed tree.
pub const COLUMN: usize = 5;

pub struct PrintItem {
    pub indent_level: i32,
    pub item: Vec<char>,
}

pub ghost struct PrintItemView {
    pub indent_level: int,
    pub item: Seq<char>,
}

impl View for PrintItem {
    type V = PrintItemView;

    open spec fn view(&self) -> PrintItemView {
        PrintItemView { indent_level: self.indent_level as int, item: self.item@ }
    }
}

pub open spec fn items_view(items: Seq<PrintItem>) -> Seq<PrintItemView> {
    items.map_values(|p: PrintItem| p@)
}

pub open spec fn spaces(n: nat) -> Seq<char> {
    Seq::new(n, |i: int| ' ')
}

/// A label centred in a column, as `format!("{:^5}", ..)` does: the odd space
/// goes to the right; a label wider than the column is kept whole.
pub open spec fn centered(t: Seq<char>) -> Seq<char> {
    if t.len() >= COLUMN {
        t
    } else {
        let pad = (COLUMN - t.len()) as nat;
        spaces(pad / 2) + t + spaces((pad - pad / 2) as nat)
    }
}

/// The text of a row of labels, the cursor standing in column `indent`: empty
/// columns up to each label's own, then the label.
pub open spec fn render_row(items: Seq<PrintItemView>, indent: int) -> Seq<char>
    decreases items.len(),
{
    if items.len() == 0 {
        seq![]
    } else {
        let it = items[0];
        let gap: int = if it.indent_level > indent {
            it.indent_level - indent
        } else {
            0
        };
        spaces((COLUMN * gap) as nat) + centered(it.item) + render_row(
            items.drop_first(),
            indent + gap + 1,
        )
    }
}

/// The rows of depth `d` on, up to the first depth with no labels.
pub open spec fn render_rows(rows: Map<i32, Seq<PrintItemView>>, min: int, d: int) -> Seq<
    Seq<char>,
>
    decreases 0x8000_0000 - d,
{
    if 0 <= d <= i32::MAX && rows.contains_key(d as i32) {
        seq![render_row(rows[d as i32], min)] + render_rows(rows, min, d + 1)
    } else {
        seq![]
    }
}

fn push_spaces(out: &mut Vec<char>, n: u128)
    ensures
        final(out)@ == old(out)@ + spaces(n as nat),
{
    let mut k: u128 = 0;
    while k < n
        invariant
            k <= n,
            out@ == old(out)@ + spaces(k as nat),
        decreases n - k,
    {
        out.push(' ');
        k += 1;
        assert(out@ =~= old(out)@ + spaces(k as nat));
    }
}

fn push_centered(out: &mut Vec<char>, t: &Vec<char>)
    ensures
        final(out)@ == old(out)@ + centered(t@),
{
    let pad: usize = if t.len() >= COLUMN {
        0
    } else {
        COLUMN - t.len()
    };
    push_spaces(out, (pad / 2) as u128);
    let mut i: usize = 0;
    let ghost mid = out@;
    while i < t.len()
        invariant
            0 <= i <= t.len(),
            out@ == mid + t@.subrange(0, i as int),
        decreases t.len() - i,
    {
        out.push(t[i]);
        i += 1;
        assert(out@ =~= mid + t@.subrange(0, i as int));
    }
    assert(t@.subrange(0, i as int) =~= t@);
    push_spaces(out, (pad - pad / 2) as u128);
    if t.len() >= COLUMN {
        assert(spaces(0) =~= seq![]);
        assert(out@ =~= old(out)@ + t@);
    } else {
        assert(out@ =~= old(out)@ + centered(t@));
    }
}

/// The text of one row, laid out from column `start`.
pub fn render_row_text(items: &Vec<PrintItem>, start: i32) -> (r: Vec<char>)
    ensures
        r@ == render_row(items_view(items@), start as int),
{
    let ghost all = items_view(items@);
    let mut out: Vec<char> = Vec::new();
    let mut indent: i128 = start as i128;
    let mut i: usize = 0;
    assert(all.subrange(0, all.len() as int) =~= all);
    assert(out@ + render_row(all, start as int) =~= render_row(all, start as int));
    while i < items.len()
        invariant
            0 <= i <= items.len(),
            all == items_view(items@),
            start <= indent <= i32::MAX + i,
            out@ + render_row(all.subrange(i as int, all.len() as int), indent as int) == render_row(
                all,
                start as int,
            ),
        decreases items.len() - i,
    {
        let ghost rest = all.subrange(i as int, all.len() as int);
        let ghost before = out@;
        let lvl = items[i].indent_level as i128;
        let gap: i128 = if lvl > indent {
            lvl - indent
        } else {
            0
        };
        push_spaces(&mut out, (COLUMN as i128 * gap) as u128);
        push_centered(&mut out, &items[i].item);
        indent = indent + gap + 1;
        i += 1;
        assert(rest.drop_first() =~= all.subrange(i as int, all.len() as int));
        assert(rest[0] == items@[i - 1]@);
        assert(out@ + render_row(all.subrange(i as int, all.len() as int), indent as int)
            =~= before + render_row(rest, indent - gap - 1));
    }
    assert(all.subrange(i as int, all.len() as int) =~= seq![]);
    assert(out@ + seq![] =~= out@);
    out
}

pub open spec fn lines_view(lines: Seq<Vec<char>>) -> Seq<Seq<char>> {
    lines.map_values(|l: Vec<char>| l@)
}

/// Lays out labels in rows by depth and in columns by indent level.
pub struct TreePrinter {
    pub print_items: HashMap<i32, Vec<PrintItem>>,
    pub min_ident_level: i32,
}

impl TreePrinter {
    /// The labels of each depth, in the order they were added.
    pub open spec fn rows(&self) -> Map<i32, Seq<PrintItemView>> {
        self.print_items@.map_values(|v: Vec<PrintItem>| items_view(v@))
    }

    /// The labels of one depth; none if nothing was added there.
    pub open spec fn row(&self, depth: i32) -> Seq<PrintItemView> {
        if self.rows().contains_key(depth) {
            self.rows()[depth]
        } else {
            seq![]
        }
    }

    pub fn new() -> (r: TreePrinter)
        ensures
            r.rows() == Map::<i32, Seq<PrintItemView>>::empty(),
            r.min_ident_level == 0,
    {
        let r = TreePrinter { print_items: HashMap::new(), min_ident_level: 0 };
        assert(r.rows() =~= Map::<i32, Seq<PrintItemView>>::empty());
        r
    }

    /// Adds a label at the end of row `depth`, in column `indent_level`.
    pub fn add_print_item(&mut self, item: String, depth: i32, indent_level: i32)
        ensures
            final(self).rows() == old(self).rows().insert(
                depth,
                old(self).row(depth).push(PrintItemView { indent_level: indent_level as int, item: item@ }),
            ),
            final(self).min_ident_level == if indent_level < old(self).min_ident_level {
                indent_level
            } else {
                old(self).min_ident_level
            },
    {
        let mut lvl = match self.print_items.remove(&depth) {
            Some(v) => v,
            None => Vec::new(),
        };
        let ghost before = lvl@;
        assert(self.print_items@ == old(self).print_items@.remove(depth));
        assert(items_view(before) =~= old(self).row(depth));
        let p = PrintItem { indent_level, item: chars_of(&item) };
        let ghost pv = p@;
        lvl.push(p);
        assert(items_view(lvl@) =~= items_view(before).push(pv));
        self.print_items.insert(depth, lvl);
        if indent_level < self.min_ident_level {
            self.min_ident_level = indent_level;
        }
        assert(self.rows() =~= old(self).rows().insert(depth, old(self).row(depth).push(pv)));
    }

    /// The text of the tree, one row per depth from 0 up to the first depth
    /// with no labels; every row starts at the smallest indent level added.
    pub fn render(&self) -> (r: Vec<Vec<char>>)
        ensures
            lines_view(r@) == render_rows(self.rows(), self.min_ident_level as int, 0),
    {
        let ghost rows = self.rows();
        let ghost min = self.min_ident_level as int;
        let mut out: Vec<Vec<char>> = Vec::new();
        let mut d: i32 = 0;
        loop
            invariant
                0 <= d,
                rows == self.rows(),
                min == self.min_ident_level as int,
                lines_view(out@) + render_rows(rows, min, d as int) == render_rows(rows, min, 0),
            decreases i32::MAX - d,
        {
            let ghost before = out@;
            match self.print_items.get(&d) {
                Some(line) => {
                    let text = render_row_text(line, self.min_ident_level);
                    out.push(text);
                    assert(lines_view(out@) =~= lines_view(before).push(text@));
                    if d == i32::MAX {
                        assert(render_rows(rows, min, d + 1) == Seq::<Seq<char>>::empty());
                        assert(lines_view(out@) + seq![] =~= lines_view(out@));
                        return out;
                    }
                    assert(lines_view(before) + render_rows(rows, min, d as int) =~= lines_view(
                        out@,
                    ) + render_rows(rows, min, d + 1));
                    d += 1;
                },
                None => {
                    assert(lines_view(out@) + seq![] =~= lines_view(out@));
                    return out;
                },
            }
        }
    }
}

} // verus!
