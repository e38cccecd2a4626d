//! The navigation state of the interactive browser: which view is shown,
//! which table is selected, and how far each pane is scrolled. Drawing and key
//! reading live with the caller; every change of state is decided here.
use vstd::prelude::*;

verus! {

/// The view that the browser shows.
#[derive(Clone, Copy, Debug, PartialEq, Eq, Structural)]
pub enum AppMode {
    Tables,
    Query,
    Schema,
}

/// Whether keys edit the query text or navigate.
#[derive(Clone, Copy, Debug, PartialEq, Eq, Structural)]
pub enum InputMode {
    Normal,
    Editing,
}

/// The result of a query as the browser shows it.
#[derive(Debug)]
pub enum QueryResult {
    Text(String),
    Table { headers: Vec<String>, rows: Vec<Vec<String>> },
}

/// The view after `m` in the cycle Tables, Query, Schema.
pub open spec fn mode_after(m: AppMode) -> AppMode {
    match m {
        AppMode::Tables => AppMode::Query,
        AppMode::Query => AppMode::Schema,
        AppMode::Schema => AppMode::Tables,
    }
}

/// The view before `m` in the cycle Tables, Query, Schema.
pub open spec fn mode_before(m: AppMode) -> AppMode {
    match m {
        AppMode::Tables => AppMode::Schema,
        AppMode::Query => AppMode::Tables,
        AppMode::Schema => AppMode::Query,
    }
}

/// `x` less one, stopping at zero.
pub open spec fn dec(x: usize) -> usize {
    if x > 0 {
        (x - 1) as usize
    } else {
        0
    }
}

/// `x` plus one, stopping at the largest `usize`.
pub open spec fn inc(x: usize) -> usize {
    if x < usize::MAX {
        (x + 1) as usize
    } else {
        x
    }
}

/// The navigation state of the browser.
#[derive(Debug)]
pub struct ViewState {
    pub mode: AppMode,
    pub input_mode: InputMode,
    pub show_help: bool,
    /// The selected entry of the table list, if any.
    pub selected_table: Option<usize>,
    /// How many tables the list holds.
    pub table_count: usize,
    /// The rows of the loaded table, if one is loaded.
    pub row_count: Option<usize>,
    /// The columns of the loaded table.
    pub column_count: usize,
    pub vertical_scroll: usize,
    pub horizontal_scroll: usize,
    pub query_scroll: usize,
    pub schema_scroll: usize,
    /// The cursor within the query text, in characters.
    pub query_cursor_position: usize,
    /// The length of the query text, in characters.
    pub query_len: usize,
}

impl ViewState {
    /// The state on start: the tables view, with the first table selected when
    /// there is one.
    pub fn new(table_count: usize) -> (r: ViewState)
        ensures
            r.mode == AppMode::Tables,
            r.input_mode == InputMode::Normal,
            !r.show_help,
            r.table_count == table_count,
            r.selected_table == (if table_count > 0 {
                Some(0usize)
            } else {
                None
            }),
            r.row_count is None,
            r.column_count == 0,
            r.vertical_scroll == 0 && r.horizontal_scroll == 0,
            r.query_scroll == 0 && r.schema_scroll == 0,
            r.query_cursor_position == 0 && r.query_len == 0,
    {
        ViewState {
            mode: AppMode::Tables,
            input_mode: InputMode::Normal,
            show_help: false,
            selected_table: if table_count > 0 {
                Some(0)
            } else {
                None
            },
            table_count,
            row_count: None,
            column_count: 0,
            vertical_scroll: 0,
            horizontal_scroll: 0,
            query_scroll: 0,
            schema_scroll: 0,
            query_cursor_position: 0,
            query_len: 0,
        }
    }

    /// Switches to the next view.
    pub fn next_mode(&mut self)
        ensures
            final(self).mode == mode_after(old(self).mode),
            *final(self) == (ViewState { mode: final(self).mode, ..*old(self) }),
    {
        self.mode = match self.mode {
            AppMode::Tables => AppMode::Query,
            AppMode::Query => AppMode::Schema,
            AppMode::Schema => AppMode::Tables,
        };
    }

    /// Switches to the previous view.
    pub fn previous_mode(&mut self)
        ensures
            final(self).mode == mode_before(old(self).mode),
            *final(self) == (ViewState { mode: final(self).mode, ..*old(self) }),
    {
        self.mode = match self.mode {
            AppMode::Tables => AppMode::Schema,
            AppMode::Query => AppMode::Tables,
            AppMode::Schema => AppMode::Query,
        };
    }

    /// Selects the next table, wrapping from the last to the first.
    pub fn next_table(&mut self)
        ensures
            old(self).table_count == 0 ==> *final(self) == *old(self),
            old(self).table_count > 0 ==> {
                let s = match old(self).selected_table {
                    Some(i) => i,
                    None => 0,
                };
                &&& final(self).selected_table == Some(
                    if s >= old(self).table_count - 1 {
                        0usize
                    } else {
                        (s + 1) as usize
                    },
                )
                &&& *final(self) == (ViewState { selected_table: final(self).selected_table, ..*old(self) })
            },
    {
        if self.table_count == 0 {
            return;
        }
        let selected = match self.selected_table {
            Some(i) => i,
            None => 0,
        };
        let next = if selected >= self.table_count - 1 {
            0
        } else {
            selected + 1
        };
        self.selected_table = Some(next);
    }

    /// Selects the previous table, wrapping from the first to the last.
    pub fn previous_table(&mut self)
        ensures
            old(self).table_count == 0 ==> *final(self) == *old(self),
            old(self).table_count > 0 ==> {
                let s = match old(self).selected_table {
                    Some(i) => i,
                    None => 0,
                };
                &&& final(self).selected_table == Some(
                    if s == 0 {
                        (old(self).table_count - 1) as usize
                    } else {
                        (s - 1) as usize
                    },
                )
                &&& *final(self) == (ViewState { selected_table: final(self).selected_table, ..*old(self) })
            },
    {
        if self.table_count == 0 {
            return;
        }
        let selected = match self.selected_table {
            Some(i) => i,
            None => 0,
        };
        let previous = if selected == 0 {
            self.table_count - 1
        } else {
            selected - 1
        };
        self.selected_table = Some(previous);
    }

    /// Records that a table of `rows` rows and `columns` columns was loaded,
    /// and scrolls back to its top-left corner.
    pub fn load_table(&mut self, rows: usize, columns: usize)
        ensures
            *final(self) == (ViewState {
                row_count: Some(rows),
                column_count: columns,
                vertical_scroll: 0,
                horizontal_scroll: 0,
                ..*old(self)
            }),
    {
        self.row_count = Some(rows);
        self.column_count = columns;
        self.vertical_scroll = 0;
        self.horizontal_scroll = 0;
    }

    /// Scrolls the current view up by one line.
    pub fn scroll_up(&mut self)
        ensures
            *final(self) == match old(self).mode {
                AppMode::Tables => (ViewState { vertical_scroll: dec(old(self).vertical_scroll), ..*old(self) }),
                AppMode::Query => (ViewState { query_scroll: dec(old(self).query_scroll), ..*old(self) }),
                AppMode::Schema => (ViewState { schema_scroll: dec(old(self).schema_scroll), ..*old(self) }),
            },
    {
        match self.mode {
            AppMode::Tables => {
                if self.vertical_scroll > 0 {
                    self.vertical_scroll = self.vertical_scroll - 1;
                }
            },
            AppMode::Query => {
                if self.query_scroll > 0 {
                    self.query_scroll = self.query_scroll - 1;
                }
            },
            AppMode::Schema => {
                if self.schema_scroll > 0 {
                    self.schema_scroll = self.schema_scroll - 1;
                }
            },
        }
    }

    /// Scrolls the current view down by one line; the table view stops at its
    /// last row.
    pub fn scroll_down(&mut self)
        ensures
            *final(self) == match old(self).mode {
                AppMode::Tables => match old(self).row_count {
                    Some(n) => if old(self).vertical_scroll < dec(n) {
                        (ViewState { vertical_scroll: (old(self).vertical_scroll + 1) as usize, ..*old(self) })
                    } else {
                        *old(self)
                    },
                    None => *old(self),
                },
                AppMode::Query => (ViewState { query_scroll: inc(old(self).query_scroll), ..*old(self) }),
                AppMode::Schema => (ViewState { schema_scroll: inc(old(self).schema_scroll), ..*old(self) }),
            },
    {
        match self.mode {
            AppMode::Tables => {
                if let Some(n) = self.row_count {
                    let max_scroll = if n > 0 {
                        n - 1
                    } else {
                        0
                    };
                    if self.vertical_scroll < max_scroll {
                        self.vertical_scroll = self.vertical_scroll + 1;
                    }
                }
            },
            AppMode::Query => {
                if self.query_scroll < usize::MAX {
                    self.query_scroll = self.query_scroll + 1;
                }
            },
            AppMode::Schema => {
                if self.schema_scroll < usize::MAX {
                    self.schema_scroll = self.schema_scroll + 1;
                }
            },
        }
    }

    /// Scrolls one column to the left.
    pub fn scroll_left(&mut self)
        ensures
            *final(self) == (ViewState { horizontal_scroll: dec(old(self).horizontal_scroll), ..*old(self) }),
    {
        if self.horizontal_scroll > 0 {
            self.horizontal_scroll = self.horizontal_scroll - 1;
        }
    }

    /// Scrolls one column to the right; the table view stops at its last column.
    pub fn scroll_right(&mut self)
        ensures
            *final(self) == if old(self).mode == AppMode::Tables {
                if old(self).row_count is Some && old(self).horizontal_scroll < dec(old(self).column_count) {
                    (ViewState { horizontal_scroll: (old(self).horizontal_scroll + 1) as usize, ..*old(self) })
                } else {
                    *old(self)
                }
            } else {
                (ViewState { horizontal_scroll: inc(old(self).horizontal_scroll), ..*old(self) })
            },
    {
        if self.mode == AppMode::Tables {
            if self.row_count.is_some() {
                let max_scroll = if self.column_count > 0 {
                    self.column_count - 1
                } else {
                    0
                };
                if self.horizontal_scroll < max_scroll {
                    self.horizontal_scroll = self.horizontal_scroll + 1;
                }
            }
        } else if self.horizontal_scroll < usize::MAX {
            self.horizontal_scroll = self.horizontal_scroll + 1;
        }
    }

    /// Scrolls the table ten rows down, stopping at its last row.
    pub fn scroll_table_down_fast(&mut self)
        ensures
            *final(self) == match old(self).row_count {
                Some(n) => (ViewState {
                    vertical_scroll: if old(self).vertical_scroll + 10 < dec(n) {
                        (old(self).vertical_scroll + 10) as usize
                    } else {
                        dec(n)
                    },
                    ..*old(self)
                }),
                None => *old(self),
            },
    {
        if let Some(n) = self.row_count {
            let max_scroll = if n > 0 {
                n - 1
            } else {
                0
            };
            self.vertical_scroll = if self.vertical_scroll < max_scroll && max_scroll - self.vertical_scroll > 10 {
                self.vertical_scroll + 10
            } else {
                max_scroll
            };
        }
    }

    /// Scrolls the table ten rows up, stopping at its first row.
    pub fn scroll_table_up_fast(&mut self)
        ensures
            *final(self) == (ViewState {
                vertical_scroll: if old(self).vertical_scroll >= 10 {
                    (old(self).vertical_scroll - 10) as usize
                } else {
                    0
                },
                ..*old(self)
            }),
    {
        self.vertical_scroll = if self.vertical_scroll >= 10 {
            self.vertical_scroll - 10
        } else {
            0
        };
    }

    /// Scrolls to the table's first row.
    pub fn scroll_to_table_top(&mut self)
        ensures
            *final(self) == (ViewState { vertical_scroll: 0, ..*old(self) }),
    {
        self.vertical_scroll = 0;
    }

    /// Scrolls to the table's last row.
    pub fn scroll_to_table_bottom(&mut self)
        ensures
            *final(self) == match old(self).row_count {
                Some(n) => (ViewState { vertical_scroll: dec(n), ..*old(self) }),
                None => *old(self),
            },
    {
        if let Some(n) = self.row_count {
            self.vertical_scroll = if n > 0 {
                n - 1
            } else {
                0
            };
        }
    }

    /// Shows or hides the help.
    pub fn toggle_help(&mut self)
        ensures
            *final(self) == (ViewState { show_help: !old(self).show_help, ..*old(self) }),
    {
        self.show_help = !self.show_help;
    }

    /// Records a character typed at the cursor.
    pub fn add_char_to_query(&mut self)
        requires
            old(self).query_cursor_position <= old(self).query_len < usize::MAX,
        ensures
            *final(self) == (ViewState {
                query_cursor_position: (old(self).query_cursor_position + 1) as usize,
                query_len: (old(self).query_len + 1) as usize,
                ..*old(self)
            }),
    {
        self.query_cursor_position = self.query_cursor_position + 1;
        self.query_len = self.query_len + 1;
    }

    /// Deletes the character before the cursor, if there is one; returns
    /// whether it did, and the cursor is then the position of that character.
    pub fn delete_char_from_query(&mut self) -> (r: bool)
        requires
            old(self).query_cursor_position <= old(self).query_len,
        ensures
            r == (old(self).query_cursor_position > 0),
            r ==> *final(self) == (ViewState {
                query_cursor_position: (old(self).query_cursor_position - 1) as usize,
                query_len: (old(self).query_len - 1) as usize,
                ..*old(self)
            }),
            !r ==> *final(self) == *old(self),
    {
        if self.query_cursor_position > 0 {
            self.query_cursor_position = self.query_cursor_position - 1;
            self.query_len = self.query_len - 1;
            true
        } else {
            false
        }
    }

    /// Moves the cursor one character left.
    pub fn move_cursor_left(&mut self)
        ensures
            *final(self) == (ViewState { query_cursor_position: dec(old(self).query_cursor_position), ..*old(self) }),
    {
        if self.query_cursor_position > 0 {
            self.query_cursor_position = self.query_cursor_position - 1;
        }
    }

    /// Moves the cursor one character right, up to the end of the text.
    pub fn move_cursor_right(&mut self)
        ensures
            *final(self) == if old(self).query_cursor_position < old(self).query_len {
                (ViewState { query_cursor_position: (old(self).query_cursor_position + 1) as usize, ..*old(self) })
            } else {
                *old(self)
            },
    {
        if self.query_cursor_position < self.query_len {
            self.query_cursor_position = self.query_cursor_position + 1;
        }
    }

    /// Records that the query text was cleared after it ran.
    pub fn clear_query(&mut self)
        ensures
            *final(self) == (ViewState { query_cursor_position: 0, query_len: 0, ..*old(self) }),
    {
        self.query_cursor_position = 0;
        self.query_len = 0;
    }
}

} // verus!
