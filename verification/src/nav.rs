use vstd::prelude::*;

use crate::device::FileEntry;
use crate::order::{entries_sorted, sort_entries};
use crate::text::{dec_string, seq_views, spec_dec};

verus! {

/// A key press, reduced to what the browser reacts to.
#[derive(Debug, Clone, Copy, PartialEq, Eq, Structural)]
pub enum Key {
    Char(char),
    Up,
    Down,
    Left,
    Right,
    Enter,
    Backspace,
    Other,
}

/// What the event loop must do next on the machine's behalf: nothing, try to
/// acquire the device, or fetch a listing of the current path and hand it to
/// `refresh_listing`.
#[derive(Debug, Clone, Copy, PartialEq, Eq, Structural)]
pub enum NavAction {
    Stay,
    Connect,
    Refresh,
}

/// `'/'` followed by the segment, for each segment in turn.
pub open spec fn spec_joined(segs: Seq<Seq<char>>) -> Seq<char>
    decreases segs.len(),
{
    if segs.len() == 0 {
        Seq::empty()
    } else {
        seq!['/'] + segs[0] + spec_joined(segs.drop_first())
    }
}

/// The display form of a directory stack: `"/"` at the root, else the
/// segments each preceded by `'/'`.
pub open spec fn spec_path_string(segs: Seq<Seq<char>>) -> Seq<char> {
    if segs.len() == 0 {
        seq!['/']
    } else {
        spec_joined(segs)
    }
}

proof fn lemma_joined_snoc(segs: Seq<Seq<char>>, k: int)
    requires
        0 <= k < segs.len(),
    ensures
        spec_joined(segs.take(k + 1)) =~= spec_joined(segs.take(k)) + seq!['/'] + segs[k],
    decreases k,
{
    let t = segs.take(k + 1);
    if k == 0 {
        assert(t.drop_first() =~= segs.take(0));
        assert(spec_joined(segs.take(0)) =~= Seq::<char>::empty());
        assert(spec_joined(t) =~= seq!['/'] + segs[0] + Seq::<char>::empty());
        assert(spec_joined(t) =~= spec_joined(segs.take(0)) + seq!['/'] + segs[0]);
    } else {
        let rest = segs.drop_first();
        assert(t.drop_first() =~= rest.take(k));
        assert(segs.take(k).drop_first() =~= rest.take(k - 1));
        lemma_joined_snoc(rest, k - 1);
        assert(rest[k - 1] == segs[k]);
        assert(spec_joined(t) == seq!['/'] + segs[0] + spec_joined(rest.take(k)));
        assert(spec_joined(segs.take(k)) == seq!['/'] + segs[0] + spec_joined(rest.take(k - 1)));
        assert(seq!['/'] + segs[0] + (spec_joined(rest.take(k - 1)) + seq!['/'] + rest[k - 1])
            =~= (seq!['/'] + segs[0] + spec_joined(rest.take(k - 1))) + seq!['/'] + segs[k]);
    }
}

/// The next selection index: one step down, wrapping to the top.
pub open spec fn next_of(i: int, len: int) -> int {
    if i >= len - 1 {
        0
    } else {
        i + 1
    }
}

/// The previous selection index: one step up, wrapping to the bottom.
pub open spec fn prev_of(i: int, len: int) -> int {
    if i == 0 {
        len - 1
    } else {
        i - 1
    }
}

/// `k` applications of `next_of`.
pub open spec fn iterate_next(i: int, len: int, k: nat) -> int
    decreases k,
{
    if k == 0 {
        i
    } else {
        next_of(iterate_next(i, len, (k - 1) as nat), len)
    }
}

proof fn lemma_iterate_next_value(i: int, len: int, k: nat)
    requires
        0 <= i < len,
        k <= len,
    ensures
        iterate_next(i, len, k) == if i + k < len {
            i + k
        } else {
            i + k - len
        },
    decreases k,
{
    if k > 0 {
        lemma_iterate_next_value(i, len, (k - 1) as nat);
    }
}

/// Law: advancing the selection `len` times returns it to where it began —
/// wraparound steps form a cycle of exactly the listing's length.
pub proof fn lemma_select_next_cycles(i: int, len: int)
    requires
        0 <= i < len,
    ensures
        iterate_next(i, len, len as nat) == i,
{
    lemma_iterate_next_value(i, len, len as nat);
}

/// Law: entering a directory pushes one segment and going up pops one, so
/// the two in sequence restore the directory stack exactly.
pub proof fn lemma_enter_then_up_restores(path: Seq<Seq<char>>, name: Seq<char>)
    ensures
        path.push(name).drop_last() == path,
{
    assert(path.push(name).drop_last() =~= path);
}

/// Everything but the selection is kept.
pub open spec fn same_view(pre: App, post: App) -> bool {
    &&& post.spec_entries() == pre.spec_entries()
    &&& post.spec_path() == pre.spec_path()
    &&& post.spec_connected() == pre.spec_connected()
    &&& post.spec_status() == pre.spec_status()
    &&& post.spec_quit() == pre.spec_quit()
}

/// Effect of moving the selection one entry down with wraparound.
pub open spec fn select_next_post(pre: App, post: App) -> bool {
    &&& same_view(pre, post)
    &&& (pre.spec_entries().len() == 0 ==> post.spec_selected() == pre.spec_selected())
    &&& (pre.spec_entries().len() > 0 ==> (post.spec_selected() matches Some(k) && k as int
        == (match pre.spec_selected() {
        Some(i) => next_of(i as int, pre.spec_entries().len() as int),
        None => 0,
    })))
}

/// Effect of moving the selection one entry up with wraparound.
pub open spec fn select_previous_post(pre: App, post: App) -> bool {
    &&& same_view(pre, post)
    &&& (pre.spec_entries().len() == 0 ==> post.spec_selected() == pre.spec_selected())
    &&& (pre.spec_entries().len() > 0 ==> (post.spec_selected() matches Some(k) && k as int
        == (match pre.spec_selected() {
        Some(i) => prev_of(i as int, pre.spec_entries().len() as int),
        None => 0,
    })))
}

/// Effect of entering the selected folder: push its name, or do nothing.
pub open spec fn enter_directory_post(pre: App, post: App, needs_refresh: bool) -> bool {
    match pre.spec_selected() {
        None => !needs_refresh && post == pre,
        Some(k) => if pre.spec_entries()[k as int].is_folder {
            &&& needs_refresh
            &&& post.spec_path() == pre.spec_path().push(pre.spec_entries()[k as int].name@)
            &&& post.spec_entries() == pre.spec_entries()
            &&& post.spec_selected() == pre.spec_selected()
            &&& post.spec_connected() == pre.spec_connected()
            &&& post.spec_status() == pre.spec_status()
            &&& post.spec_quit() == pre.spec_quit()
        } else {
            !needs_refresh && post == pre
        },
    }
}

/// Effect of going up one level: pop a segment, or do nothing at the root.
pub open spec fn go_up_post(pre: App, post: App, needs_refresh: bool) -> bool {
    if pre.spec_path().len() > 0 {
        &&& needs_refresh
        &&& post.spec_path() == pre.spec_path().drop_last()
        &&& post.spec_entries() == pre.spec_entries()
        &&& post.spec_selected() == pre.spec_selected()
        &&& post.spec_connected() == pre.spec_connected()
        &&& post.spec_status() == pre.spec_status()
        &&& post.spec_quit() == pre.spec_quit()
    } else {
        !needs_refresh && post == pre
    }
}

/// Effect of releasing the device: back to a cleared, disconnected session.
pub open spec fn disconnect_post(pre: App, post: App) -> bool {
    &&& !post.spec_connected()
    &&& post.spec_path() == Seq::<Seq<char>>::empty()
    &&& post.spec_entries() == Seq::<FileEntry>::empty()
    &&& post.spec_selected() is None
    &&& post.spec_quit() == pre.spec_quit()
    &&& post.spec_status() == "Disconnected. Press 'c' to reconnect."@
}

/// The interactive browser: a connection flag, the directory stack, the
/// most recently fetched listing in browsing order, a wraparound selection,
/// and a status line.  Device work happens outside: events carry its
/// results in, and `NavAction` says what to do next.
pub struct App {
    connected: bool,
    current_path: Vec<String>,
    entries: Vec<FileEntry>,
    selected: Option<usize>,
    status_message: String,
    should_quit: bool,
}

impl App {
    pub closed spec fn spec_connected(&self) -> bool {
        self.connected
    }

    pub closed spec fn spec_path(&self) -> Seq<Seq<char>> {
        seq_views(self.current_path@)
    }

    pub closed spec fn spec_entries(&self) -> Seq<FileEntry> {
        self.entries@
    }

    pub closed spec fn spec_selected(&self) -> Option<usize> {
        self.selected
    }

    pub closed spec fn spec_status(&self) -> Seq<char> {
        self.status_message@
    }

    pub closed spec fn spec_quit(&self) -> bool {
        self.should_quit
    }

    /// The selection, when present, points into the listing.
    pub open spec fn wf(&self) -> bool {
        self.spec_selected() matches Some(k) ==> (k as int) < self.spec_entries().len()
    }

    /// A fresh session: disconnected, at the root, nothing listed.
    pub fn new() -> (app: App)
        ensures
            !app.spec_connected(),
            app.spec_path() =~= Seq::<Seq<char>>::empty(),
            app.spec_entries() =~= Seq::<FileEntry>::empty(),
            app.spec_selected() is None,
            app.spec_status() == "Press 'c' to connect to Kindle"@,
            !app.spec_quit(),
            app.wf(),
    {
        App {
            connected: false,
            current_path: Vec::new(),
            entries: Vec::new(),
            selected: None,
            status_message: String::from_str("Press 'c' to connect to Kindle"),
            should_quit: false,
        }
    }

    pub fn is_connected(&self) -> (r: bool)
        ensures
            r == self.spec_connected(),
    {
        self.connected
    }

    pub fn wants_quit(&self) -> (r: bool)
        ensures
            r == self.spec_quit(),
    {
        self.should_quit
    }

    pub fn entries(&self) -> (r: &Vec<FileEntry>)
        ensures
            r@ == self.spec_entries(),
    {
        &self.entries
    }

    pub fn path_stack(&self) -> (r: &Vec<String>)
        ensures
            seq_views(r@) == self.spec_path(),
    {
        &self.current_path
    }

    pub fn selected_index(&self) -> (r: Option<usize>)
        ensures
            r == self.spec_selected(),
    {
        self.selected
    }

    pub fn status(&self) -> (r: &String)
        ensures
            r@ == self.spec_status(),
    {
        &self.status_message
    }

    /// The display form of the current directory.
    pub fn current_path_string(&self) -> (r: String)
        ensures
            r@ == spec_path_string(self.spec_path()),
    {
        let n = self.current_path.len();
        if n == 0 {
            let r = String::from_str("/");
            proof {
                reveal_strlit("/");
                assert(r@ =~= seq!['/']);
            }
            r
        } else {
            let mut s = String::new();
            let mut i: usize = 0;
            proof {
                assert(self.spec_path().take(0) =~= Seq::<Seq<char>>::empty());
                assert(s@ =~= spec_joined(self.spec_path().take(0)));
            }
            while i < n
                invariant
                    i <= n,
                    n == self.current_path@.len(),
                    s@ == spec_joined(self.spec_path().take(i as int)),
                decreases n - i,
            {
                s.append("/");
                s.append(self.current_path[i].as_str());
                proof {
                    reveal_strlit("/");
                    assert("/"@ =~= seq!['/']);
                    lemma_joined_snoc(self.spec_path(), i as int);
                    assert(self.spec_path()[i as int] == self.current_path@[i as int]@);
                    assert(s@ =~= spec_joined(self.spec_path().take(i as int)) + seq!['/']
                        + self.spec_path()[i as int]);
                }
                i = i + 1;
            }
            proof {
                assert(self.spec_path().take(n as int) =~= self.spec_path());
            }
            s
        }
    }

    /// The device was acquired: remember that and announce the first load.
    /// The caller follows up with a root listing handed to
    /// `refresh_listing`.
    pub fn connect_succeeded(&mut self)
        requires
            !old(self).spec_connected(),
        ensures
            final(self).spec_connected(),
            final(self).spec_path() == old(self).spec_path(),
            final(self).spec_entries() == old(self).spec_entries(),
            final(self).spec_selected() == old(self).spec_selected(),
            final(self).spec_quit() == old(self).spec_quit(),
            final(self).spec_status() == "Connected! Loading files..."@,
            old(self).wf() ==> final(self).wf(),
    {
        self.connected = true;
        self.status_message = String::from_str("Connected! Loading files...");
    }

    /// The device could not be acquired: stay disconnected, record the
    /// reason, and keep the session alive for a retry.
    pub fn connect_failed(&mut self, reason: &str)
        requires
            !old(self).spec_connected(),
        ensures
            !final(self).spec_connected(),
            final(self).spec_path() == old(self).spec_path(),
            final(self).spec_entries() == old(self).spec_entries(),
            final(self).spec_selected() == old(self).spec_selected(),
            final(self).spec_quit() == old(self).spec_quit(),
            final(self).spec_status() == "Connection failed: "@ + reason@,
            old(self).wf() ==> final(self).wf(),
    {
        let mut s = String::from_str("Connection failed: ");
        s.append(reason);
        self.status_message = s;
    }

    /// Releases the session's view of the device: the stack, listing and
    /// selection are cleared and the machine returns to disconnected.
    pub fn disconnect(&mut self)
        ensures
            disconnect_post(*old(self), *final(self)),
            final(self).wf(),
    {
        self.connected = false;
        self.entries = Vec::new();
        self.current_path = Vec::new();
        self.selected = None;
        self.status_message = String::from_str("Disconnected. Press 'c' to reconnect.");
        proof {
            assert(self.spec_path() =~= Seq::<Seq<char>>::empty());
            assert(self.spec_entries() =~= Seq::<FileEntry>::empty());
        }
    }

    /// Installs the outcome of fetching the current directory's listing.
    /// A fresh listing is sorted into browsing order and the selection
    /// resets to the top; a failure only updates the status line, leaving
    /// listing and selection untouched.
    pub fn refresh_listing(&mut self, fetched: Result<Vec<FileEntry>, String>)
        requires
            old(self).spec_connected(),
        ensures
            final(self).spec_connected(),
            final(self).spec_path() == old(self).spec_path(),
            final(self).spec_quit() == old(self).spec_quit(),
            match fetched {
                Ok(list) => {
                    &&& entries_sorted(final(self).spec_entries())
                    &&& final(self).spec_entries().to_multiset() == list@.to_multiset()
                    &&& final(self).spec_entries().len() == list@.len()
                    &&& final(self).spec_selected() == (if list@.len() > 0 {
                        Some(0usize)
                    } else {
                        None::<usize>
                    })
                    &&& final(self).spec_status() =~= "Path: "@ + spec_path_string(
                        old(self).spec_path(),
                    ) + " ("@ + spec_dec(list@.len() as nat) + " items)"@
                },
                Err(reason) => {
                    &&& final(self).spec_entries() == old(self).spec_entries()
                    &&& final(self).spec_selected() == old(self).spec_selected()
                    &&& final(self).spec_status() =~= "Error listing files: "@ + reason@
                },
            },
            old(self).wf() ==> final(self).wf(),
    {
        match fetched {
            Ok(mut list) => {
                let path_str = self.current_path_string();
                sort_entries(&mut list);
                let count = list.len();
                self.entries = list;
                if count > 0 {
                    self.selected = Some(0);
                } else {
                    self.selected = None;
                }
                let mut s = String::from_str("Path: ");
                s.append(path_str.as_str());
                s.append(" (");
                let num = dec_string(count as u64);
                s.append(num.as_str());
                s.append(" items)");
                self.status_message = s;
            },
            Err(reason) => {
                let mut s = String::from_str("Error listing files: ");
                s.append(reason.as_str());
                self.status_message = s;
            },
        }
    }

    /// Enters the selected folder: its name is pushed onto the stack and
    /// the caller must refresh.  Selecting a file, or nothing, is a no-op.
    pub fn enter_directory(&mut self) -> (needs_refresh: bool)
        requires
            old(self).wf(),
        ensures
            enter_directory_post(*old(self), *final(self), needs_refresh),
            final(self).wf(),
    {
        match self.selected {
            Some(k) => {
                if self.entries[k].is_folder {
                    let name = self.entries[k].name.clone();
                    self.current_path.push(name);
                    proof {
                        let pre = old(self).current_path@;
                        let nm = old(self).entries@[k as int].name@;
                        assert forall|m: int|
                            0 <= m < seq_views(self.current_path@).len() implies #[trigger] seq_views(
                            self.current_path@,
                        )[m] == seq_views(pre).push(nm)[m] by {
                            if m < pre.len() {
                                assert(self.current_path@[m] == pre[m]);
                            }
                        }
                        assert(seq_views(self.current_path@) =~= seq_views(pre).push(nm));
                    }
                    true
                } else {
                    false
                }
            },
            None => false,
        }
    }

    /// Pops one segment off the stack; the caller must refresh.  At the
    /// root this is a no-op.
    pub fn go_up(&mut self) -> (needs_refresh: bool)
        ensures
            go_up_post(*old(self), *final(self), needs_refresh),
            old(self).wf() ==> final(self).wf(),
    {
        if self.current_path.len() > 0 {
            self.current_path.pop();
            proof {
                let pre = old(self).current_path@;
                assert forall|m: int|
                    0 <= m < seq_views(self.current_path@).len() implies #[trigger] seq_views(
                    self.current_path@,
                )[m] == seq_views(pre).drop_last()[m] by {
                    assert(self.current_path@[m] == pre[m]);
                }
                assert(seq_views(self.current_path@) =~= seq_views(pre).drop_last());
            }
            true
        } else {
            false
        }
    }

    /// Moves the selection one entry down, wrapping to the top; with no
    /// selection yet it starts at the top.  An empty listing is a no-op.
    pub fn select_next(&mut self)
        requires
            old(self).wf(),
        ensures
            select_next_post(*old(self), *final(self)),
            final(self).wf(),
    {
        if self.entries.len() == 0 {
            return ;
        }
        let i: usize = match self.selected {
            Some(i) => {
                if i >= self.entries.len() - 1 {
                    0
                } else {
                    i + 1
                }
            },
            None => 0,
        };
        self.selected = Some(i);
    }

    /// Moves the selection one entry up, wrapping to the bottom; with no
    /// selection yet it starts at the top.  An empty listing is a no-op.
    pub fn select_previous(&mut self)
        requires
            old(self).wf(),
        ensures
            select_previous_post(*old(self), *final(self)),
            final(self).wf(),
    {
        if self.entries.len() == 0 {
            return ;
        }
        let i: usize = match self.selected {
            Some(i) => {
                if i == 0 {
                    self.entries.len() - 1
                } else {
                    i - 1
                }
            },
            None => 0,
        };
        self.selected = Some(i);
    }

    /// Routes one key press: quit, connect, disconnect, refresh, move the
    /// selection, enter the selected folder, go up.  The returned action is
    /// the outside work the event loop owes the machine afterwards.
    pub fn handle_key(&mut self, key: Key) -> (act: NavAction)
        requires
            old(self).wf(),
        ensures
            final(self).wf(),
            (match key {
                Key::Char(c) => {
                    if c == 'q' {
                        &&& act is Stay
                        &&& final(self).spec_quit()
                        &&& final(self).spec_entries() == old(self).spec_entries()
                        &&& final(self).spec_path() == old(self).spec_path()
                        &&& final(self).spec_connected() == old(self).spec_connected()
                        &&& final(self).spec_status() == old(self).spec_status()
                        &&& final(self).spec_selected() == old(self).spec_selected()
                    } else if c == 'c' {
                        if !old(self).spec_connected() {
                            &&& act is Connect
                            &&& final(self).spec_status() == "Connecting to Kindle..."@
                            &&& final(self).spec_entries() == old(self).spec_entries()
                            &&& final(self).spec_path() == old(self).spec_path()
                            &&& !final(self).spec_connected()
                            &&& final(self).spec_quit() == old(self).spec_quit()
                            &&& final(self).spec_selected() == old(self).spec_selected()
                        } else {
                            act is Stay && *final(self) == *old(self)
                        }
                    } else if c == 'd' {
                        if old(self).spec_connected() {
                            act is Stay && disconnect_post(*old(self), *final(self))
                        } else {
                            act is Stay && *final(self) == *old(self)
                        }
                    } else if c == 'r' {
                        &&& act == (if old(self).spec_connected() {
                            NavAction::Refresh
                        } else {
                            NavAction::Stay
                        })
                        &&& *final(self) == *old(self)
                    } else if c == 'k' {
                        act is Stay && select_previous_post(*old(self), *final(self))
                    } else if c == 'j' {
                        act is Stay && select_next_post(*old(self), *final(self))
                    } else if c == 'l' {
                        enter_directory_post(*old(self), *final(self), act is Refresh)
                    } else if c == 'h' {
                        go_up_post(*old(self), *final(self), act is Refresh)
                    } else {
                        act is Stay && *final(self) == *old(self)
                    }
                },
                Key::Up => act is Stay && select_previous_post(*old(self), *final(self)),
                Key::Down => act is Stay && select_next_post(*old(self), *final(self)),
                Key::Enter => enter_directory_post(*old(self), *final(self), act is Refresh),
                Key::Right => enter_directory_post(*old(self), *final(self), act is Refresh),
                Key::Left => go_up_post(*old(self), *final(self), act is Refresh),
                Key::Backspace => go_up_post(*old(self), *final(self), act is Refresh),
                Key::Other => act is Stay && *final(self) == *old(self),
            }),
    {
        match key {
            Key::Char(c) => {
                if c == 'q' {
                    self.should_quit = true;
                    NavAction::Stay
                } else if c == 'c' {
                    if !self.connected {
                        self.status_message = String::from_str("Connecting to Kindle...");
                        NavAction::Connect
                    } else {
                        NavAction::Stay
                    }
                } else if c == 'd' {
                    if self.connected {
                        self.disconnect();
                    }
                    NavAction::Stay
                } else if c == 'r' {
                    if self.connected {
                        NavAction::Refresh
                    } else {
                        NavAction::Stay
                    }
                } else if c == 'k' {
                    self.select_previous();
                    NavAction::Stay
                } else if c == 'j' {
                    self.select_next();
                    NavAction::Stay
                } else if c == 'l' {
                    if self.enter_directory() {
                        NavAction::Refresh
                    } else {
                        NavAction::Stay
                    }
                } else if c == 'h' {
                    if self.go_up() {
                        NavAction::Refresh
                    } else {
                        NavAction::Stay
                    }
                } else {
                    NavAction::Stay
                }
            },
            Key::Up => {
                self.select_previous();
                NavAction::Stay
            },
            Key::Down => {
                self.select_next();
                NavAction::Stay
            },
            Key::Enter => {
                if self.enter_directory() {
                    NavAction::Refresh
                } else {
                    NavAction::Stay
                }
            },
            Key::Right => {
                if self.enter_directory() {
                    NavAction::Refresh
                } else {
                    NavAction::Stay
                }
            },
            Key::Left => {
                if self.go_up() {
                    NavAction::Refresh
                } else {
                    NavAction::Stay
                }
            },
            Key::Backspace => {
                if self.go_up() {
                    NavAction::Refresh
                } else {
                    NavAction::Stay
                }
            },
            Key::Other => NavAction::Stay,
        }
    }
}

} // verus!
