//! The mouse in the editing views.

use crate::document::paths;
use crate::document::selection::Selection;
use crate::document::source_map;
use crate::editor::link::LinkTarget;
use crate::editor::mode::Mode;
use crate::editor::mouse_ops::drag_commit;
use crate::editor::mouse_ops::events;
use crate::editor::mouse_ops::events::{DragTarget, Moused, MouseAction, Pointer, TableUnder};
use crate::editor::mouse_ops::hits;
use crate::editor::mouse_ops::hits::TableHit;
use crate::editor::mouse_ops::pick;
use crate::editor::mouse_ops::selection;
use crate::editor::mouse_ops::table_drag;
use crate::editor::state;
use crate::editor::state::{CursorTrack, EditorState, EditorView};
use crate::editor::table_edit::TableMetrics;
use crate::editor::wrap::Layout;
use std::path::Path;
use vstd::prelude::*;

verus! {

/// The widths that a drag of a border began with fit the screen.
pub open spec fn drag_fits(drag: Option<DragTarget>, metrics: TableMetrics) -> bool {
    drag matches Some(DragTarget::TableColumnBorder { col_idx, start_widths, .. }) ==> {
        &&& metrics.per_col_overhead * start_widths@.len() + metrics.row_end_overhead
            + table_drag::other_widths(
            start_widths@,
            col_idx - 1,
            start_widths@.len() as int,
        ) <= usize::MAX
        &&& forall|i: int|
            0 <= i < start_widths@.len() ==> #[trigger] start_widths@[i] <= i32::MAX
        &&& metrics.min_col_width <= i32::MAX
    }
}

impl EditorView {
    /// The cursor put to `offset`, and aiming at the column of the screen.
    pub open spec fn cursor_put(self, offset: int, layout: Layout) -> EditorView {
        let u = self.at(offset);
        u.aimed_at(u.visual_col(layout)).followed()
    }

    /// A click puts the cursor and begins a selection, which stays in the cell of a
    /// table in the rendered view. The drag is noted only where the cursor leaves its
    /// line: the note has lines shown as they are rendered, and that of the cursor
    /// would flicker.
    pub open spec fn cursor_clicked(self, p: Pointer, offset: usize) -> Moused {
        let u = self.at(offset as int);
        let same_line = self.track.line_idx == Some(u.line() as usize);
        let block = source_map::owner(self.parsed.source_map.extended(), u.cursor_byte());
        let same_diagram = self.track.block_idx matches Some(b) && block == Some(b as int)
            && self.parsed.diagram_at(b);
        let w = self.selecting(None).cursor_put(offset as int, p.layout);
        Moused {
            state: if (same_line && !p.in_table) || same_diagram {
                w
            } else {
                w.dragging(true)
            },
            drag: Some(
                DragTarget::TextSelection {
                    anchor: offset,
                    cell: if self.mode == Mode::Rendered {
                        p.cell
                    } else {
                        None
                    },
                },
            ),
            keep_visible: true,
        }
    }

    /// A click on an image puts the cursor into its source, which is shown at once.
    pub open spec fn image_clicked(self, target: int, layout: Layout) -> EditorView {
        let w = self.selecting(None).cursor_put(target, layout);
        w.resting(CursorTrack { entered_at: None, ..w.track }).dragging(false)
    }

    /// A click is on an image whose source is not shown, and leads into it.
    pub open spec fn image_hit(self, p: Pointer) -> Option<usize> {
        match p.image {
            Some((idx, Some(target))) => if self.track.block_idx == Some(idx) && self.revealed() {
                None
            } else {
                Some(target)
            },
            _ => None,
        }
    }

    /// The cursor is in a table.
    pub open spec fn cursor_within(self, t: TableUnder) -> bool {
        t.start <= self.cursor_byte() < t.end
    }

    /// The cursor put into a table whose handles are not shown yet.
    pub open spec fn table_focused(self, t: TableUnder, layout: Layout) -> EditorView {
        self.selecting(None).cursor_put(
            state::char_at_byte(self.text, t.start as int),
            layout,
        )
    }

    /// What a click on a table does; none where it is a click like any other. A
    /// handle of a table that the cursor is not in only puts the cursor there.
    pub open spec fn table_clicked(
        self,
        t: TableUnder,
        col: u16,
        layout: Layout,
        drag: Option<DragTarget>,
    ) -> Option<Moused> {
        if hits::is_handle(t.hit, t.col_count as int) && !self.cursor_within(t) {
            Some(
                Moused {
                    state: self.table_focused(t, layout).dragging(false),
                    drag: None,
                    keep_visible: true,
                },
            )
        } else {
            match t.hit {
                TableHit::RowHandle { row_idx } => Some(
                    Moused {
                        state: self.dragging(true),
                        drag: Some(
                            DragTarget::TableRow {
                                table_byte_start: t.start,
                                row_idx,
                                hover_row_idx: row_idx,
                            },
                        ),
                        keep_visible: false,
                    },
                ),
                TableHit::ColumnHandle { col_idx } => Some(
                    Moused {
                        state: self.dragging(true),
                        drag: Some(
                            DragTarget::TableColumnHeader {
                                table_byte_start: t.start,
                                col_idx,
                                hover_col_idx: col_idx,
                            },
                        ),
                        keep_visible: false,
                    },
                ),
                TableHit::ColumnBorder { col_idx } => if hits::draggable(
                    col_idx as int,
                    t.col_count as int,
                ) && t.widths is Some {
                    Some(
                        Moused {
                            state: self.dragging(true),
                            drag: Some(
                                DragTarget::TableColumnBorder {
                                    table_byte_start: t.start,
                                    col_idx,
                                    start_widths: (t.widths->0).0,
                                    start_user_widths: (t.widths->0).1,
                                    anchor_x: col,
                                },
                            ),
                            keep_visible: false,
                        },
                    )
                } else {
                    None
                },
                TableHit::DeleteRowHandle { .. } | TableHit::DeleteColumnHandle { .. } => Some(
                    if self.delete_allowed() {
                        Moused {
                            state: self.part_deleted(
                                match t.deletion {
                                    Some(d) => Some(d@),
                                    None => None,
                                },
                            ).dragging(false),
                            drag: None,
                            keep_visible: t.deletion is Some,
                        }
                    } else {
                        Moused { state: self, drag, keep_visible: false }
                    },
                ),
                TableHit::Cell { .. } => None,
            }
        }
    }

    /// A click with nothing to follow.
    pub open spec fn plain_clicked(self, p: Pointer, drag: Option<DragTarget>) -> Moused {
        match (match p.table {
            Some(t) => self.table_clicked(t, p.col, p.layout, drag),
            None => None,
        }) {
            Some(m) => m,
            None => if p.offset matches Some(o) && self.checkbox_edit(o as int) is Some {
                Moused {
                    state: self.checkbox_toggled(p.offset->0 as int).dragging(false),
                    drag: None,
                    keep_visible: false,
                }
            } else {
                match (self.image_hit(p), p.offset) {
                    (Some(target), _) => Moused {
                        state: self.image_clicked(target as int, p.layout),
                        drag: None,
                        keep_visible: true,
                    },
                    (None, Some(o)) => self.cursor_clicked(p, o),
                    (None, None) => Moused { state: self, drag, keep_visible: false },
                }
            },
        }
    }

    /// A double or a triple click: a table's handle answers as to a click, and else a
    /// word or a line is selected.
    pub open spec fn multi_clicked(
        self,
        p: Pointer,
        drag: Option<DragTarget>,
        triple: bool,
    ) -> Moused {
        match (match p.table {
            Some(t) => self.table_clicked(t, p.col, p.layout, drag),
            None => None,
        }) {
            Some(m) => m,
            None => match p.offset {
                Some(o) => {
                    let u = self.at(o as int);
                    Moused {
                        state: (if triple {
                            u.line_selected(p.cell_source)
                        } else {
                            u.word_selected()
                        }).followed(),
                        drag: None,
                        keep_visible: true,
                    }
                },
                None => Moused { state: self, drag, keep_visible: false },
            },
        }
    }

    /// A drag.
    pub open spec fn mouse_dragged(
        self,
        p: Pointer,
        drag: Option<DragTarget>,
        metrics: TableMetrics,
    ) -> Moused {
        match drag {
            Some(DragTarget::TextSelection { anchor, cell }) => match p.offset {
                Some(o) => {
                    let active = match cell {
                        Some((lo, hi)) => events::clamped(o as int, lo as int, hi as int),
                        None => o as int,
                    };
                    let u = self.at(active);
                    Moused {
                        state: u.aimed_at(u.visual_col(p.layout)).selecting(
                            Some(Selection { anchor, active: active as usize }),
                        ).followed(),
                        drag,
                        keep_visible: true,
                    }
                },
                None => Moused { state: self, drag, keep_visible: false },
            },
            Some(DragTarget::TableRow { table_byte_start, row_idx, hover_row_idx }) => Moused {
                state: self,
                drag: Some(
                    DragTarget::TableRow {
                        table_byte_start,
                        row_idx,
                        hover_row_idx: match p.hover {
                            Some(h) => h,
                            None => hover_row_idx,
                        },
                    },
                ),
                keep_visible: false,
            },
            Some(
                DragTarget::TableColumnBorder {
                    table_byte_start,
                    col_idx,
                    start_widths,
                    start_user_widths,
                    anchor_x,
                },
            ) => Moused {
                state: if 0 < col_idx <= start_widths@.len() {
                    self.with_live_widths(
                        Some(
                            (
                                table_byte_start,
                                table_drag::padded(
                                    start_user_widths@,
                                    start_widths@.len() as int,
                                ).update(
                                    col_idx - 1,
                                    Some(
                                        table_drag::resized(
                                            start_widths@,
                                            col_idx - 1,
                                            p.col - anchor_x,
                                            self.settings.viewport_width as nat,
                                            metrics,
                                        ) as usize,
                                    ),
                                ),
                            ),
                        ),
                    ).refreshed()
                } else {
                    self
                },
                drag,
                keep_visible: false,
            },
            Some(DragTarget::TableColumnHeader { table_byte_start, col_idx, hover_col_idx }) =>
            Moused {
                state: self,
                drag: Some(
                    DragTarget::TableColumnHeader {
                        table_byte_start,
                        col_idx,
                        hover_col_idx: match p.hover {
                            Some(h) => h,
                            None => hover_col_idx,
                        },
                    },
                ),
                keep_visible: false,
            },
            _ => Moused { state: self, drag, keep_visible: false },
        }
    }

    /// The end of a drag.
    pub open spec fn mouse_released(self, p: Pointer, drag: Option<DragTarget>) -> EditorView {
        (match drag {
            Some(DragTarget::TextSelection { .. }) => match self.selection {
                Some(sel) => if sel.anchor == sel.active {
                    self.selecting(None)
                } else if sel.anchor <= self.text.len() && sel.active <= self.text.len() {
                    self.selecting(Some(selection::expanded(self.text, sel)))
                } else {
                    self
                },
                None => self,
            },
            Some(DragTarget::TableRow { row_idx, hover_row_idx, .. }) => self.row_dragged(
                row_idx as int,
                hover_row_idx as int,
                p.swaps@,
            ),
            Some(DragTarget::TableColumnBorder { table_byte_start, .. }) => self.border_dropped(
                table_byte_start,
            ),
            Some(DragTarget::TableColumnHeader { col_idx, hover_col_idx, .. }) =>
            self.column_dragged(col_idx as int, hover_col_idx as int, p.swaps@),
            _ => self,
        }).dragging(false)
    }

    /// A click follows something: a link with the control key, a footnote in the
    /// rendered view.
    pub open spec fn click_follows(self, ctrl: bool, p: Pointer) -> bool {
        (ctrl && self.follows(p.offset, p.link, p.back)) || (self.mode == Mode::Rendered
            && self.follows_footnote(p.offset, p.back))
    }

    /// `t` is what a click follows.
    pub open spec fn click_leads_to(
        self,
        ctrl: bool,
        p: Pointer,
        dir: Option<Seq<u8>>,
        t: LinkTarget,
    ) -> bool {
        if ctrl && self.follows(p.offset, p.link, p.back) {
            self.leads_to(p.offset, p.link, p.back, dir, t)
        } else {
            self.leads_to_footnote(p.offset, p.back, t)
        }
    }

    /// What the mouse does in an editing view. `link` is what a click follows, if it
    /// follows anything: by the control key the drag stays as it was.
    #[verifier::opaque]
    pub open spec fn edit_moused(
        self,
        a: MouseAction,
        p: Pointer,
        drag: Option<DragTarget>,
        metrics: TableMetrics,
        link: Option<LinkTarget>,
    ) -> Moused {
        match a {
            MouseAction::Click { ctrl } => if link is Some {
                if ctrl && self.follows(p.offset, p.link, p.back) {
                    Moused { state: self.following(link), drag, keep_visible: false }
                } else {
                    Moused {
                        state: self.following(link).dragging(false),
                        drag: None,
                        keep_visible: false,
                    }
                }
            } else {
                self.plain_clicked(p, drag)
            },
            MouseAction::DoubleClick => self.multi_clicked(p, drag, false),
            MouseAction::TripleClick => self.multi_clicked(p, drag, true),
            MouseAction::Drag => self.mouse_dragged(p, drag, metrics),
            MouseAction::Release => Moused {
                state: self.mouse_released(p, drag),
                drag: None,
                keep_visible: false,
            },
            MouseAction::Scroll(delta) => Moused {
                state: self.wheeled(delta as int, p.total_rows as int),
                drag,
                keep_visible: false,
            },
        }
    }

    /// `link` is what the mouse follows, if it follows anything.
    pub open spec fn mouse_follows(
        self,
        a: MouseAction,
        p: Pointer,
        dir: Option<Seq<u8>>,
        link: Option<LinkTarget>,
    ) -> bool {
        match a {
            MouseAction::Click { ctrl } => if self.mode == Mode::Preview {
                (link is Some) == self.follows(p.offset, p.link, p.back) && (link matches Some(
                    t,
                ) ==> self.leads_to(p.offset, p.link, p.back, dir, t))
            } else {
                (link is Some) == self.click_follows(ctrl, p) && (link matches Some(t)
                    ==> self.click_leads_to(ctrl, p, dir, t))
            },
            _ => link is None,
        }
    }

    /// What the mouse does.
    pub open spec fn moused(
        self,
        a: MouseAction,
        p: Pointer,
        drag: Option<DragTarget>,
        metrics: TableMetrics,
        link: Option<LinkTarget>,
    ) -> Moused {
        if self.mode == Mode::Preview {
            self.preview_moused(a, p, drag, link)
        } else {
            self.edit_moused(a, p, drag, metrics, link)
        }
    }
}

/// No selection, and no place of the cursor, is a part of the text.
proof fn lemma_place_text(v: EditorView, offset: int, s: Option<Selection>, col: usize)
    ensures
        v.at(offset).text == v.text,
        v.at(offset).aimed_at(col).text == v.text,
        v.selecting(s).text == v.text,
        v.selecting(s).mode == v.mode,
        v.selecting(s).cursor == v.cursor,
        v.selecting(s).parsed == v.parsed,
        v.at(offset).parsed == v.parsed,
{
    reveal(EditorView::at);
    reveal(EditorView::aimed_at);
    reveal(EditorView::selecting);
}

impl EditorState {
    /// Puts the cursor to `offset`, aiming at the column of the screen: that of the
    /// line would lead too far to the right on a row that continues one.
    fn put_cursor_on_screen(&mut self, offset: usize, layout: &Layout)
        requires
            old(self).wf(),
            offset <= old(self)@.text.len(),
            layout.fits(old(self)@.text),
        ensures
            final(self)@ == old(self)@.cursor_put(offset as int, *layout),
            final(self).wf(),
    {
        proof {
            lemma_place_text(self@, offset as int, None, 0);
        }
        self.put_cursor(offset);
        let col: usize = self.current_visual_col(layout);
        self.aim_at(col);
        self.update_cursor_block();
    }

    /// Puts the cursor by a click, and begins a selection.
    fn click_cursor(&mut self, p: &Pointer, offset: usize, drag: &mut Option<DragTarget>)
        requires
            old(self).wf(),
            p.fits(old(self)@.text),
            offset <= old(self)@.text.len(),
        ensures
            final(self)@ == old(self)@.cursor_clicked(*p, offset).state,
            *final(drag) == old(self)@.cursor_clicked(*p, offset).drag,
            final(self).wf(),
    {
        let ghost v = self@;
        let f = self.facts();
        let line: usize = self.buffer().char_to_line(offset);
        let byte: usize = self.buffer().char_to_byte(offset);
        let block: Option<usize> = self.parsed().source_map.block_for_byte(byte);
        let same_line: bool = match f.track.line_idx {
            Some(l) => l == line,
            None => false,
        };
        let same_diagram: bool = match (f.track.block_idx, block) {
            (Some(a), Some(b)) => a == b && self.parsed().is_diagram_reveal_block(a),
            _ => false,
        };
        assert(v.at(offset as int).line() == line && v.at(offset as int).cursor_byte()
            == byte) by {
            reveal(EditorView::at);
        }
        proof {
            lemma_place_text(v, offset as int, None, 0);
        }
        self.select(None);
        self.put_cursor_on_screen(offset, &p.layout);
        *drag =
        Some(
            DragTarget::TextSelection {
                anchor: offset,
                cell: if f.mode == Mode::Rendered {
                    p.cell
                } else {
                    None
                },
            },
        );
        if !((same_line && !p.in_table) || same_diagram) {
            self.drag(true);
        }
    }

    /// Puts the cursor into the source of an image.
    fn click_image(&mut self, target: usize, layout: &Layout)
        requires
            old(self).wf(),
            target <= old(self)@.text.len(),
            layout.fits(old(self)@.text),
        ensures
            final(self)@ == old(self)@.image_clicked(target as int, *layout),
            final(self).wf(),
    {
        proof {
            lemma_place_text(self@, target as int, None, 0);
        }
        self.select(None);
        self.put_cursor_on_screen(target, layout);
        let track: CursorTrack = self.facts().track;
        self.rest(
            CursorTrack { entered_at: None, ..track },
        );
        self.drag(false);
    }

    /// Puts the cursor into a table that it is not in, and says whether it did.
    fn focus_table_first(&mut self, start: usize, end: usize, layout: &Layout) -> (r: bool)
        requires
            old(self).wf(),
            layout.fits(old(self)@.text),
        ensures
            r == !(start <= old(self)@.cursor_byte() < end),
            final(self)@ == if r {
                old(self)@.selecting(None).cursor_put(
                    state::char_at_byte(old(self)@.text, start as int),
                    *layout,
                )
            } else {
                old(self)@
            },
            final(self).wf(),
    {
        let byte: usize = self.cursor_byte();
        if start <= byte && byte < end {
            return false;
        }
        let offset: usize = self.char_at_byte(start);
        proof {
            lemma_place_text(self@, offset as int, None, 0);
        }
        self.select(None);
        self.put_cursor_on_screen(offset, layout);
        true
    }

    /// Answers to a click on a drawn table, and says whether it was one: a click in a
    /// cell, or on the table's left edge, puts the cursor as any other. The second
    /// result says whether the cursor is to be kept on the screen.
    pub fn dispatch_table_click(
        &mut self,
        table: Option<TableUnder>,
        col: u16,
        layout: &Layout,
        drag: &mut Option<DragTarget>,
    ) -> (r: (bool, bool))
        requires
            old(self).wf(),
            layout.fits(old(self)@.text),
            table matches Some(t) ==> (t.deletion matches Some(d) ==> state::stands_at_byte(
                old(self)@.text,
                d@,
            )),
        ensures
            match (match table {
                Some(t) => old(self)@.table_clicked(t, col, *layout, *old(drag)),
                None => None,
            }) {
                Some(m) => r.0 && r.1 == m.keep_visible && final(self)@ == m.state && *final(drag)
                    == m.drag,
                None => !r.0 && final(self)@ == old(self)@ && *final(drag) == *old(drag),
            },
            final(self).wf(),
    {
        let t: TableUnder = match table {
            Some(t) => t,
            None => {
                return (false, false);
            },
        };
        if hits::acts_on_handle(t.hit, t.col_count) {
            if self.focus_table_first(t.start, t.end, layout) {
                *drag = None;
                self.drag(false);
                return (true, true);
            }
        }
        match t.hit {
            TableHit::RowHandle { row_idx } => {
                *drag =
                Some(
                    DragTarget::TableRow {
                        table_byte_start: t.start,
                        row_idx,
                        hover_row_idx: row_idx,
                    },
                );
                self.drag(true);
                (true, false)
            },
            TableHit::ColumnHandle { col_idx } => {
                *drag =
                Some(
                    DragTarget::TableColumnHeader {
                        table_byte_start: t.start,
                        col_idx,
                        hover_col_idx: col_idx,
                    },
                );
                self.drag(true);
                (true, false)
            },
            TableHit::ColumnBorder { col_idx } => {
                if col_idx > 0 && col_idx <= t.col_count {
                    match t.widths {
                        Some((start_widths, start_user_widths)) => {
                            *drag =
                            Some(
                                DragTarget::TableColumnBorder {
                                    table_byte_start: t.start,
                                    col_idx,
                                    start_widths,
                                    start_user_widths,
                                    anchor_x: col,
                                },
                            );
                            self.drag(true);
                            return (true, false);
                        },
                        None => {},
                    }
                }
                (false, false)
            },
            TableHit::DeleteRowHandle { .. } => {
                if !self.table_delete_allowed() {
                    return (true, false);
                }
                let deleted: bool = t.deletion.is_some();
                self.delete_table_row_at(t.deletion);
                *drag = None;
                self.drag(false);
                (true, deleted)
            },
            TableHit::DeleteColumnHandle { .. } => {
                if !self.table_delete_allowed() {
                    return (true, false);
                }
                let deleted: bool = t.deletion.is_some();
                self.delete_table_column_at(t.deletion);
                *drag = None;
                self.drag(false);
                (true, deleted)
            },
            TableHit::Cell { .. } => (false, false),
        }
    }

    /// A click with nothing to follow; true iff the cursor is to be kept on the
    /// screen.
    fn click_plain(&mut self, p: Pointer, drag: &mut Option<DragTarget>) -> (r: bool)
        requires
            old(self).wf(),
            p.fits(old(self)@.text),
        ensures
            final(self)@ == old(self)@.plain_clicked(p, *old(drag)).state,
            *final(drag) == old(self)@.plain_clicked(p, *old(drag)).drag,
            r == old(self)@.plain_clicked(p, *old(drag)).keep_visible,
            final(self).wf(),
    {
        let ghost v = self@;
        let ghost d0 = *drag;
        let table: Option<TableUnder> = p.table;
        let rest = Pointer { table: None, ..p };
        let (done, keep) = self.dispatch_table_click(table, rest.col, &rest.layout, drag);
        if done {
            return keep;
        }
        assert(v.image_hit(rest) == v.image_hit(p));
        match rest.offset {
            Some(o) => {
                assert(v.cursor_clicked(rest, o) == v.cursor_clicked(p, o));
                if self.toggle_checkbox_at(o) {
                    *drag = None;
                    self.drag(false);
                    return false;
                }
            },
            None => {},
        }
        match rest.image {
            Some((idx, Some(target))) => {
                let shown: bool = (match self.facts().track.block_idx {
                    Some(b) => b == idx,
                    None => false,
                }) && self.cursor_block_revealed();
                if !shown {
                    self.click_image(target, &rest.layout);
                    *drag = None;
                    return true;
                }
            },
            _ => {},
        }
        match rest.offset {
            Some(o) => {
                self.click_cursor(&rest, o, drag);
                true
            },
            None => false,
        }
    }

    /// A double or a triple click; true iff the cursor is to be kept on the screen.
    fn click_again(&mut self, p: Pointer, drag: &mut Option<DragTarget>, triple: bool) -> (r: bool)
        requires
            old(self).wf(),
            p.fits(old(self)@.text),
        ensures
            final(self)@ == old(self)@.multi_clicked(p, *old(drag), triple).state,
            *final(drag) == old(self)@.multi_clicked(p, *old(drag), triple).drag,
            r == old(self)@.multi_clicked(p, *old(drag), triple).keep_visible,
            final(self).wf(),
    {
        let (done, keep) = self.dispatch_table_click(p.table, p.col, &p.layout, drag);
        if done {
            return keep;
        }
        let at: usize = match p.offset {
            Some(o) => o,
            None => {
                return false;
            },
        };
        self.put_cursor(at);
        if triple {
            self.select_line_at_cursor(&p.cell_source);
        } else {
            self.select_word_at_cursor();
        }
        self.update_cursor_block();
        *drag = None;
        true
    }

    /// A drag; true iff the cursor is to be kept on the screen.
    fn drag_on(&mut self, p: &Pointer, drag: &mut Option<DragTarget>, metrics: &TableMetrics) -> (r:
        bool)
        requires
            old(self).wf(),
            p.fits(old(self)@.text),
            drag_fits(*old(drag), *metrics),
            *old(drag) matches Some(DragTarget::TextSelection { cell: Some((lo, hi)), .. }) ==> lo
                <= old(self)@.text.len() && hi <= old(self)@.text.len(),
        ensures
            final(self)@ == old(self)@.mouse_dragged(*p, *old(drag), *metrics).state,
            *final(drag) == old(self)@.mouse_dragged(*p, *old(drag), *metrics).drag,
            r == old(self)@.mouse_dragged(*p, *old(drag), *metrics).keep_visible,
            final(self).wf(),
    {
        let ghost v = self@;
        let target: Option<DragTarget> = drag.take();
        match target {
            Some(DragTarget::TextSelection { anchor, cell }) => {
                let at: usize = match p.offset {
                    Some(o) => o,
                    None => {
                        *drag = Some(DragTarget::TextSelection { anchor, cell });
                        return false;
                    },
                };
                let active: usize = match cell {
                    Some((lo, hi)) => events::clamp(at, lo, hi),
                    None => at,
                };
                proof {
                    lemma_place_text(v, active as int, None, 0);
                }
                self.put_cursor(active);
                let col: usize = self.current_visual_col(&p.layout);
                self.aim_at(col);
                self.select(Some(Selection { anchor, active }));
                self.update_cursor_block();
                *drag = Some(DragTarget::TextSelection { anchor, cell });
                true
            },
            Some(DragTarget::TableRow { table_byte_start, row_idx, hover_row_idx }) => {
                *drag =
                Some(
                    DragTarget::TableRow {
                        table_byte_start,
                        row_idx,
                        hover_row_idx: match p.hover {
                            Some(h) => h,
                            None => hover_row_idx,
                        },
                    },
                );
                false
            },
            Some(
                DragTarget::TableColumnBorder {
                    table_byte_start,
                    col_idx,
                    start_widths,
                    start_user_widths,
                    anchor_x,
                },
            ) => {
                let delta: i32 = p.col as i32 - anchor_x as i32;
                let width: usize = self.facts().settings.viewport_width;
                match table_drag::resize_widths(
                    start_widths.as_slice(),
                    start_user_widths.as_slice(),
                    col_idx,
                    delta,
                    width,
                    metrics,
                ) {
                    Some(w) => {
                        self.set_live_widths(Some((table_byte_start, w)));
                        self.refresh_parsed();
                    },
                    None => {},
                }
                *drag =
                Some(
                    DragTarget::TableColumnBorder {
                        table_byte_start,
                        col_idx,
                        start_widths,
                        start_user_widths,
                        anchor_x,
                    },
                );
                false
            },
            Some(DragTarget::TableColumnHeader { table_byte_start, col_idx, hover_col_idx }) => {
                *drag =
                Some(
                    DragTarget::TableColumnHeader {
                        table_byte_start,
                        col_idx,
                        hover_col_idx: match p.hover {
                            Some(h) => h,
                            None => hover_col_idx,
                        },
                    },
                );
                false
            },
            Some(DragTarget::Scrollbar { grab_offset }) => {
                *drag = Some(DragTarget::Scrollbar { grab_offset });
                false
            },
            None => false,
        }
    }

    /// The end of a drag.
    fn release(&mut self, p: &Pointer, drag: &mut Option<DragTarget>)
        requires
            old(self).wf(),
            drag_commit::swaps_fit(state::bytes_of(old(self)@.text), p.swaps@),
        ensures
            final(self)@ == old(self)@.mouse_released(*p, *old(drag)),
            *final(drag) == None::<DragTarget>,
            final(self).wf(),
    {
        match drag.take() {
            Some(DragTarget::TextSelection { .. }) => {
                match self.selection() {
                    Some(sel) => {
                        let len: usize = self.buffer().len_chars();
                        if sel.is_empty() {
                            self.select(None);
                        } else if sel.anchor <= len && sel.active <= len {
                            let wide: Selection = selection::expand_selection_to_inline_markers(
                                self.buffer(),
                                sel,
                            );
                            self.select(Some(wide));
                        }
                    },
                    None => {},
                }
            },
            Some(DragTarget::TableRow { row_idx, hover_row_idx, .. }) => {
                self.commit_row_drag(row_idx, hover_row_idx, p.swaps.as_slice());
            },
            Some(DragTarget::TableColumnBorder { table_byte_start, .. }) => {
                self.commit_column_border_drag(table_byte_start);
            },
            Some(DragTarget::TableColumnHeader { col_idx, hover_col_idx, .. }) => {
                self.commit_column_drag(col_idx, hover_col_idx, p.swaps.as_slice());
            },
            _ => {},
        }
        self.drag(false);
    }

    /// A click in an editing view; true iff the cursor is to be kept on the screen.
    fn click(
        &mut self,
        ctrl: bool,
        p: Pointer,
        drag: &mut Option<DragTarget>,
        base_dir: Option<&Path>,
        metrics: &TableMetrics,
    ) -> (r: bool)
        requires
            old(self).wf(),
            p.fits(old(self)@.text),
            old(self)@.mode != Mode::Preview,
        ensures
            exists|link: Option<LinkTarget>|
                old(self)@.mouse_follows(
                    MouseAction::Click { ctrl },
                    p,
                    paths::dir_bytes(base_dir),
                    link,
                ) && ({
                    let m = #[trigger] old(self)@.edit_moused(
                        MouseAction::Click { ctrl },
                        p,
                        *old(drag),
                        *metrics,
                        link,
                    );
                    final(self)@ == m.state && *final(drag) == m.drag && r == m.keep_visible
                }),
            final(self).wf(),
    {
        reveal(EditorView::edit_moused);
        let ghost v = self@;
        let ghost d0 = *drag;
        let ghost a = MouseAction::Click { ctrl };
        let ghost dir = paths::dir_bytes(base_dir);
        let offset: Option<usize> = p.offset;
        let link: Option<LinkTarget> = p.link;
        let back: Option<LinkTarget> = p.back;
        let rest = Pointer { link: None, back: None, ..p };
        if ctrl && (offset.is_some() || link.is_some()) {
            if self.follow_link_at_click(offset, link, back, base_dir) {
                let ghost t = choose|t: LinkTarget| #[trigger]
                    v.leads_to(offset, p.link, p.back, dir, t) && self@ == v.following(
                        Some(t),
                    );
                assert(v.mouse_follows(a, p, dir, Some(t)));
                assert(self@ == v.edit_moused(a, p, d0, *metrics, Some(t)).state);
                return false;
            }
        } else if self.mode() == Mode::Rendered {
            if self.follow_footnote_at_click(offset, back) {
                let ghost t = choose|t: LinkTarget| #[trigger]
                    v.leads_to_footnote(offset, p.back, t) && self@ == v.following(Some(t));
                *drag = None;
                self.drag(false);
                assert(v.mouse_follows(a, p, dir, Some(t)));
                assert(self@ == v.edit_moused(a, p, d0, *metrics, Some(t)).state);
                return false;
            }
        }
        assert(v.mouse_follows(a, p, dir, None));
        let keep: bool = self.click_plain(rest, drag);
        assert(v.plain_clicked(rest, d0) == v.plain_clicked(p, d0)) by {
            match p.offset {
                Some(o) => {
                    assert(v.cursor_clicked(rest, o) == v.cursor_clicked(p, o));
                },
                None => {},
            }
        }
        assert(self@ == v.edit_moused(a, p, d0, *metrics, None).state);
        keep
    }
}

/// Does what the mouse asks; true iff the cursor is to be kept on the screen. `drag`
/// lives from the press of the button to its release. The document must be rendered
/// from the text at hand.
pub fn apply(
    state: &mut EditorState,
    action: MouseAction,
    p: Pointer,
    drag: &mut Option<DragTarget>,
    base_dir: Option<&Path>,
    metrics: &TableMetrics,
) -> (r: bool)
    requires
        old(state).wf(),
        !old(state)@.parsed_dirty,
        !old(state)@.reparse_due,
        p.fits(old(state)@.text),
        drag_fits(*old(drag), *metrics),
        action is Release ==> drag_commit::swaps_fit(state::bytes_of(old(state)@.text), p.swaps@),
        *old(drag) matches Some(DragTarget::TextSelection { cell: Some((lo, hi)), .. }) ==> lo
            <= old(state)@.text.len() && hi <= old(state)@.text.len(),
    ensures
        exists|link: Option<LinkTarget>|
            old(state)@.mouse_follows(action, p, paths::dir_bytes(base_dir), link) && ({
                let m = #[trigger] old(state)@.moused(action, p, *old(drag), *metrics, link);
                final(state)@ == m.state && *final(drag) == m.drag && r == m.keep_visible
            }),
        final(state).wf(),
{
    reveal(EditorView::edit_moused);
    let ghost v = state@;
    let ghost d0 = *drag;
    let ghost dir = paths::dir_bytes(base_dir);
    let ghost none: Option<LinkTarget> = None;
    if state.mode() == Mode::Preview {
        state.apply_preview_action(action, p, drag, base_dir);
        proof {
            let link = choose|link: Option<LinkTarget>|
                (link is Some) == (action is Click && v.follows(p.offset, p.link, p.back))
                    && (link matches Some(t) ==> v.leads_to(
                    p.offset,
                    p.link,
                    p.back,
                    dir,
                    t,
                )) && state@ == (#[trigger] v.preview_moused(action, p, d0, link)).state && *drag
                    == v.preview_moused(action, p, d0, link).drag && !v.preview_moused(
                    action,
                    p,
                    d0,
                    link,
                ).keep_visible;
            assert(v.moused(action, p, d0, *metrics, link) == v.preview_moused(
                action,
                p,
                d0,
                link,
            ));
        }
        return false;
    }
    match action {
        MouseAction::Click { ctrl } => {
            let keep: bool = state.click(ctrl, p, drag, base_dir, metrics);
            proof {
                let link = choose|link: Option<LinkTarget>|
                    v.mouse_follows(action, p, dir, link) && ({
                        let m = #[trigger] v.edit_moused(action, p, d0, *metrics, link);
                        state@ == m.state && *drag == m.drag && keep == m.keep_visible
                    });
                assert(v.moused(action, p, d0, *metrics, link) == v.edit_moused(
                    action,
                    p,
                    d0,
                    *metrics,
                    link,
                ));
            }
            keep
        },
        MouseAction::DoubleClick => {
            let keep: bool = state.click_again(p, drag, false);
            assert(v.moused(action, p, d0, *metrics, none) == v.multi_clicked(p, d0, false));
            keep
        },
        MouseAction::TripleClick => {
            let keep: bool = state.click_again(p, drag, true);
            assert(v.moused(action, p, d0, *metrics, none) == v.multi_clicked(p, d0, true));
            keep
        },
        MouseAction::Drag => {
            let keep: bool = state.drag_on(&p, drag, metrics);
            assert(v.moused(action, p, d0, *metrics, none) == v.mouse_dragged(p, d0, *metrics));
            keep
        },
        MouseAction::Release => {
            state.release(&p, drag);
            assert(v.moused(action, p, d0, *metrics, none).state == v.mouse_released(p, d0));
            false
        },
        MouseAction::Scroll(delta) => {
            pick::scroll_by_mouse(state, delta, p.total_rows);
            assert(v.moused(action, p, d0, *metrics, none).state == v.wheeled(
                delta as int,
                p.total_rows as int,
            ));
            false
        },
    }
}

} // verus!
