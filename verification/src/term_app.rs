//! The screen: a registry of named windows, each with its keywords, which can be looked
//! up, added, removed and pruned, and composed into one frame of escape-coded text.
use vstd::prelude::*;
use crate::text::{str_equal, concat, string_of_str};
use crate::term_render::{
    Window, RenderJob, job_view, jobs_view, decimal, PushU16, hidden_jobs, row_jobs, some_stale, bottom_border,
    top_border, rendered, span_size,
};
use crate::text::string_push;

verus! {

/// The size of the terminal.
#[derive(Clone, Copy, Debug, PartialEq, Eq, Structural, Hash)]
pub struct Rect {
    pub width: u16,
    pub height: u16,
}

impl Default for Rect {
    fn default() -> (r: Rect)
        ensures
            r.width == 0 && r.height == 0,
    {
        Rect { width: 0, height: 0 }
    }
}

/// The indices below `n` that satisfy `pred`, in increasing order.
pub open spec fn select(pred: spec_fn(int) -> bool, n: int) -> Seq<int>
    decreases n,
{
    if n <= 0 {
        Seq::empty()
    } else {
        select(pred, n - 1) + if pred(n - 1) {
            seq![n - 1]
        } else {
            Seq::<int>::empty()
        }
    }
}

pub proof fn lemma_select_bounds(pred: spec_fn(int) -> bool, n: int)
    ensures
        select(pred, n).len() <= if n < 0 { 0 } else { n },
        forall|k: int| 0 <= k < select(pred, n).len() ==> 0 <= #[trigger] select(pred, n)[k] < n && pred(select(pred, n)[k]),
        forall|k: int, l: int| 0 <= k < l < select(pred, n).len() ==> #[trigger] select(pred, n)[k] < #[trigger] select(pred, n)[l],
    decreases n,
{
    if n > 0 {
        lemma_select_bounds(pred, n - 1);
    }
}

pub proof fn lemma_select_agree(p: spec_fn(int) -> bool, q: spec_fn(int) -> bool, n: int)
    requires
        forall|i: int| 0 <= i < n ==> #[trigger] p(i) == q(i),
    ensures
        select(p, n) == select(q, n),
    decreases n,
{
    if n > 0 {
        lemma_select_agree(p, q, n - 1);
    }
}

/// The views of a list of strings.
pub open spec fn strs(v: Seq<String>) -> Seq<Seq<char>> {
    v.map_values(|s: String| s@)
}

/// Some word of `words` is one of `keys`.
pub open spec fn shares_word(words: Seq<String>, keys: Seq<String>) -> bool {
    exists|i: int, j: int| 0 <= i < words.len() && 0 <= j < keys.len() && #[trigger] words[i]@ == #[trigger] keys[j]@
}

/// Whether `s` is one of `v`.
pub fn contains_string(v: &Vec<String>, s: &String) -> (b: bool)
    ensures
        b == exists|i: int| 0 <= i < v@.len() && #[trigger] v@[i]@ == s@,
{
    let mut i: usize = 0;
    while i < v.len()
        invariant
            i <= v@.len(),
            forall|k: int| 0 <= k < i ==> #[trigger] v@[k]@ != s@,
        decreases v@.len() - i,
    {
        if str_equal(v[i].as_str(), s.as_str()) {
            return true;
        }
        i = i + 1;
    }
    false
}

/// Whether some word of `words` is one of `keys`.
fn shares_a_word(words: &Vec<String>, keys: &Vec<String>) -> (b: bool)
    ensures
        b == shares_word(words@, keys@),
{
    let mut i: usize = 0;
    while i < words.len()
        invariant
            i <= words@.len(),
            forall|a: int, j: int| 0 <= a < i && 0 <= j < keys@.len() ==> #[trigger] words@[a]@ != #[trigger] keys@[j]@,
        decreases words@.len() - i,
    {
        if contains_string(keys, &words[i]) {
            return true;
        }
        i = i + 1;
    }
    false
}

// ---------------------------------------------------------------- composing a frame
/// A row to draw as plain values: text, column, row, depth.
pub type JobView = (Seq<char>, u16, u16, u16);

/// Where a row is drawn in the frame: row by row, left to right, and deeper layers after
/// (so on top of) shallower ones, in 16-bit arithmetic that wraps around.
pub open spec fn job_key(j: JobView, size: (u16, u16)) -> int {
    (j.2 * size.0 + j.1 + j.3 * size.0 * size.1) % 65536
}

/// `perm` lists every index of `js` once, ordered by key and, among equal keys, by index:
/// the order a stable sort by key gives.
pub open spec fn stable_order(js: Seq<JobView>, size: (u16, u16), perm: Seq<int>) -> bool {
    &&& perm.len() == js.len()
    &&& forall|k: int| 0 <= k < perm.len() ==> 0 <= #[trigger] perm[k] < js.len()
    &&& forall|k: int, l: int| 0 <= k < l < perm.len() ==> {
        let a = job_key(js[#[trigger] perm[k]], size);
        let b = job_key(js[#[trigger] perm[l]], size);
        a < b || (a == b && perm[k] < perm[l])
    }
}

/// `out` is `js` in the order `perm`.
pub open spec fn permuted(js: Seq<JobView>, perm: Seq<int>, out: Seq<JobView>) -> bool {
    &&& out.len() == perm.len()
    &&& forall|k: int| 0 <= k < out.len() ==> #[trigger] out[k] == js[perm[k]]
}

fn key_of(j: &RenderJob, size: (u16, u16)) -> (k: u16)
    ensures
        k == job_key(job_view(*j), size),
{
    let a = j.2.wrapping_mul(size.0);
    let b = a.wrapping_add(j.1);
    let c = j.3.wrapping_mul(size.0).wrapping_mul(size.1);
    let k = b.wrapping_add(c);
    proof {
        let (x, y, d, w, h) = (j.1 as int, j.2 as int, j.3 as int, size.0 as int, size.1 as int);
        assert(a == (y * w) % 65536);
        assert(b == ((y * w) % 65536 + x) % 65536);
        assert(c == (((d * w) % 65536) * h) % 65536);
        vstd::arithmetic::div_mod::lemma_add_mod_noop(y * w, x, 65536);
        vstd::arithmetic::div_mod::lemma_mul_mod_noop_left(d * w, h, 65536);
        vstd::arithmetic::div_mod::lemma_add_mod_noop(y * w + x, d * w * h, 65536);
        vstd::arithmetic::div_mod::lemma_mod_twice(y * w + x, 65536);
        vstd::arithmetic::div_mod::lemma_mod_twice(d * w * h, 65536);
        assert((y * w) % 65536 + x == (y * w) % 65536 + x);
        vstd::arithmetic::div_mod::lemma_add_mod_noop((y * w) % 65536, x, 65536);
        assert(((y * w) % 65536 + x) % 65536 == (y * w + x) % 65536);
        assert(d * w * h == (d * w) * h) by (nonlinear_arith);
    }
    k
}

/// The rows in the order they are drawn: by key, and by their place among `jobs` where
/// keys tie.
pub fn SortJobs(jobs: &Vec<RenderJob>, size: (u16, u16)) -> (out: Vec<RenderJob>)
    ensures
        exists|perm: Seq<int>| #[trigger] stable_order(jobs_view(jobs@), size, perm)
            && permuted(jobs_view(jobs@), perm, jobs_view(out@)),
{
    let ghost js = jobs_view(jobs@);
    let mut out: Vec<RenderJob> = Vec::new();
    let mut keys: Vec<u16> = Vec::new();
    let ghost mut perm: Seq<int> = Seq::empty();
    let mut i: usize = 0;
    while i < jobs.len()
        invariant
            js == jobs_view(jobs@),
            i <= jobs@.len(),
            perm.len() == i,
            out@.len() == i,
            keys@.len() == i,
            forall|k: int| 0 <= k < i ==> 0 <= #[trigger] perm[k] < i,
            forall|k: int| 0 <= k < i ==> #[trigger] keys@[k] == job_key(js[perm[k]], size),
            forall|k: int| 0 <= k < i ==> #[trigger] job_view(out@[k]) == js[perm[k]],
            forall|k: int, l: int| 0 <= k < l < i ==> {
                let a = job_key(js[#[trigger] perm[k]], size);
                let b = job_key(js[#[trigger] perm[l]], size);
                a < b || (a == b && perm[k] < perm[l])
            },
        decreases jobs@.len() - i,
    {
        let ki = key_of(&jobs[i], size);
        let mut p: usize = i;
        while p > 0 && keys[p - 1] > ki
            invariant
                p <= i,
                keys@.len() == i,
                forall|k: int| p <= k < i ==> #[trigger] keys@[k] > ki,
            decreases p,
        {
            p = p - 1;
        }
        proof {
            assert forall|k: int| 0 <= k < p implies #[trigger] keys@[k] <= ki by {
                if k < p - 1 {
                    let a = job_key(js[perm[k]], size);
                    let b = job_key(js[perm[p - 1]], size);
                    assert(a < b || (a == b && perm[k] < perm[p - 1]));
                }
            }
        }
        let job = (jobs[i].0.clone(), jobs[i].1, jobs[i].2, jobs[i].3);
        let ghost out0 = out@;
        let ghost keys0 = keys@;
        let ghost perm0 = perm;
        out.insert(p, job);
        keys.insert(p, ki);
        proof {
            perm = perm.insert(p as int, i as int);
            assert(job_view(job) == js[i as int]);
            assert forall|k: int| 0 <= k < i + 1 implies #[trigger] job_view(out@[k]) == js[perm[k]] by {
                if k < p {
                    assert(out@[k] == out0[k]);
                } else if k > p {
                    assert(out@[k] == out0[k - 1]);
                }
            }
            assert forall|k: int| 0 <= k < i + 1 implies #[trigger] keys@[k] == job_key(js[perm[k]], size) by {
                if k < p {
                    assert(keys@[k] == keys0[k]);
                } else if k > p {
                    assert(keys@[k] == keys0[k - 1]);
                }
            }
            assert forall|k: int| 0 <= k < i + 1 implies 0 <= #[trigger] perm[k] < i + 1 by {
                if k < p {
                    assert(perm[k] == perm0[k]);
                } else if k > p {
                    assert(perm[k] == perm0[k - 1]);
                }
            }
            assert forall|k: int, l: int| 0 <= k < l < i + 1 implies {
                let a = job_key(js[#[trigger] perm[k]], size);
                let b = job_key(js[#[trigger] perm[l]], size);
                a < b || (a == b && perm[k] < perm[l])
            } by {
                if k < p && l < p {
                    assert(perm[k] == perm0[k] && perm[l] == perm0[l]);
                } else if k > p && l > p {
                    assert(perm[k] == perm0[k - 1] && perm[l] == perm0[l - 1]);
                } else if k < p && l > p {
                    assert(perm[k] == perm0[k] && perm[l] == perm0[l - 1]);
                    let a = job_key(js[perm0[k]], size);
                    let b = job_key(js[perm0[l - 1]], size);
                    assert(a < b || (a == b && perm0[k] < perm0[l - 1]));
                } else if k == p {
                    assert(perm[l] == perm0[l - 1]);
                    assert(keys0[l - 1] > ki);
                } else {
                    assert(perm[k] == perm0[k]);
                    assert(keys0[k] <= ki);
                }
            }
        }
        i = i + 1;
    }
    proof {
        assert(stable_order(js, size, perm));
        assert(permuted(js, perm, jobs_view(out@)));
    }
    out
}

/// The cursor move to column `x` of row `y`: `ESC[y;xH`.
pub open spec fn cursor_to(y: u16, x: u16) -> Seq<char> {
    seq!['\x1b', '['] + decimal(y as nat) + seq![';'] + decimal(x as nat) + seq!['H']
}

/// The rows drawn one after another, each after a cursor move to its place.
pub open spec fn draw_rows(js: Seq<JobView>) -> Seq<char>
    decreases js.len(),
{
    if js.len() == 0 {
        Seq::empty()
    } else {
        let j = js.last();
        draw_rows(js.drop_last()) + cursor_to(j.2, j.1) + j.0
    }
}

/// The frame's text: the rows in order, then the cursor parked at the bottom right corner.
pub open spec fn frame_text(js: Seq<JobView>, size: (u16, u16)) -> Seq<char> {
    draw_rows(js) + cursor_to(size.1, size.0) + seq![' ']
}

fn push_cursor_to(buffer: &mut String, y: u16, x: u16)
    ensures
        final(buffer)@ == old(buffer)@ + cursor_to(y, x),
{
    string_push(buffer, '\x1b');
    string_push(buffer, '[');
    PushU16(buffer, y);
    string_push(buffer, ';');
    PushU16(buffer, x);
    string_push(buffer, 'H');
    proof {
        assert(final(buffer)@ =~= old(buffer)@ + cursor_to(y, x));
    }
}

/// The text of a frame that draws `jobs` in their order on a terminal of `size`.
pub fn DrawJobs(jobs: &Vec<RenderJob>, size: (u16, u16)) -> (text: String)
    ensures
        text@ == frame_text(jobs_view(jobs@), size),
{
    let mut text = String::new();
    let mut i: usize = 0;
    while i < jobs.len()
        invariant
            i <= jobs@.len(),
            text@ == draw_rows(jobs_view(jobs@).take(i as int)),
        decreases jobs@.len() - i,
    {
        let ghost t0 = text@;
        push_cursor_to(&mut text, jobs[i].2, jobs[i].1);
        text.append(jobs[i].0.as_str());
        proof {
            let js = jobs_view(jobs@);
            assert(js.take(i + 1).drop_last() =~= js.take(i as int));
            assert(js.take(i + 1).last() == job_view(jobs@[i as int]));
            assert(text@ =~= t0 + cursor_to(jobs@[i as int].2, jobs@[i as int].1) + jobs@[i as int].0@);
        }
        i = i + 1;
    }
    proof {
        assert(jobs_view(jobs@).take(jobs@.len() as int) =~= jobs_view(jobs@));
    }
    push_cursor_to(&mut text, size.1, size.0);
    string_push(&mut text, ' ');
    text
}

// ---------------------------------------------------------------- rendering the screen
/// A window can render itself: its rows fit the 16-bit screen, its layer has one above it,
/// and a border has room for its title.
pub open spec fn render_ready(w: Window) -> bool {
    &&& w.wf()
    &&& w.position.1 + w.updated@.len() <= 65536
    &&& w.depth < 65535
    &&& w.bordered ==> {
        &&& w.size.0 >= 2
        &&& w.size.1 >= 1
        &&& w.title.1 < 65536
        &&& span_size(w.title.0@) <= usize::MAX
        &&& w.size.0 / 2 >= w.title.1 / 2 + 1
        &&& w.size.0 - 2 - (w.size.0 / 2 - w.title.1 / 2 - 1) >= w.title.1
    }
}

/// The rows a window draws when its rows are marked `updated` and the window as a whole
/// `was` up to date: nothing when it was; its stale rows as spaces when hidden; else its
/// stale rows rendered, and with a border both borders when any row was redrawn.
pub open spec fn pending_jobs(w: Window, updated: Seq<bool>, was: bool) -> Seq<JobView> {
    if was {
        Seq::empty()
    } else if w.hidden {
        hidden_jobs(updated, 0, w.size.0, w.position.0, w.position.1)
    } else {
        let b = w.border_rows();
        let end = w.size.1 - b;
        let rows = row_jobs(updated, w.lines@, b, w.border_code(), w.bordered, w.size, w.position, w.depth, b, end);
        if w.bordered && some_stale(updated, b, end) {
            rows + seq![
                (bottom_border(w.border_code(), w.size.0 as nat), w.position.0, (w.position.1 + w.size.1 - 1) as u16, (w.depth + 1) as u16),
                (top_border(w.border_code(), rendered(w.title.0@, Seq::empty()), w.title.1 as nat, w.size.0 as nat), w.position.0, w.position.1, (w.depth + 1) as u16),
            ]
        } else {
            rows
        }
    }
}

/// The sequences one after another.
pub open spec fn concat_all(ss: Seq<Seq<JobView>>) -> Seq<JobView>
    decreases ss.len(),
{
    if ss.len() == 0 {
        Seq::empty()
    } else {
        concat_all(ss.drop_last()) + ss.last()
    }
}

/// What a render of the screen gives: whether the terminal must be cleared first, how many
/// rows were drawn, and the frame's text.
pub struct Frame {
    pub clear: bool,
    pub calls: usize,
    pub text: String,
}

/// The screen's windows, each under a unique name and with its keywords, in the order they
/// were added.
#[derive(Debug)]
pub struct App {
    pub area: Rect,
    pub names: Vec<String>,
    pub windows: Vec<Window>,
    pub keywords: Vec<Vec<String>>,
    pub changeWindowLayout: bool,
    pub updated: bool,
    pub resetWindows: bool,
}

impl App {
    /// Names, windows and keywords line up, no name occurs twice, and every window is
    /// well formed.
    pub open spec fn wf(&self) -> bool {
        &&& self.names@.len() == self.windows@.len()
        &&& self.keywords@.len() == self.windows@.len()
        &&& forall|i: int, j: int| 0 <= i < j < self.names@.len() ==> #[trigger] self.names@[i]@ != #[trigger] self.names@[j]@
        &&& forall|i: int| 0 <= i < self.windows@.len() ==> #[trigger] self.windows@[i].wf()
    }

    /// A window is registered under `name`.
    pub open spec fn has(&self, name: Seq<char>) -> bool {
        exists|i: int| 0 <= i < self.names@.len() && #[trigger] self.names@[i]@ == name
    }

    /// Where the window named `name` stands.
    pub open spec fn index_of(&self, name: Seq<char>) -> int {
        choose|i: int| 0 <= i < self.names@.len() && #[trigger] self.names@[i]@ == name
    }

    pub proof fn lemma_index_of(&self, name: Seq<char>, i: int)
        requires
            self.wf(),
            0 <= i < self.names@.len(),
            self.names@[i]@ == name,
        ensures
            self.index_of(name) == i,
    {
        let k = self.index_of(name);
        if k != i {
            if k < i {
                assert(self.names@[k]@ != self.names@[i]@);
            } else {
                assert(self.names@[i]@ != self.names@[k]@);
            }
        }
    }

    /// An empty screen whose layout is still to be made.
    pub fn new() -> (a: App)
        ensures
            a.wf(),
            a.names@.len() == 0,
            a.area == (Rect { width: 0, height: 0 }),
            a.changeWindowLayout,
            a.updated,
            !a.resetWindows,
    {
        App {
            area: Rect { width: 0, height: 0 },
            names: Vec::new(),
            windows: Vec::new(),
            keywords: Vec::new(),
            changeWindowLayout: true,
            updated: true,
            resetWindows: false,
        }
    }

    fn find(&self, name: &String) -> (r: Option<usize>)
        requires
            self.wf(),
        ensures
            r is Some ==> r.unwrap() < self.names@.len() && self.names@[r.unwrap() as int]@ == name@
                && self.index_of(name@) == r.unwrap(),
            r is None ==> !self.has(name@),
    {
        let mut i: usize = 0;
        while i < self.names.len()
            invariant
                self.wf(),
                i <= self.names@.len(),
                forall|k: int| 0 <= k < i ==> #[trigger] self.names@[k]@ != name@,
            decreases self.names@.len() - i,
        {
            if str_equal(self.names[i].as_str(), name.as_str()) {
                proof {
                    self.lemma_index_of(name@, i as int);
                }
                return Some(i);
            }
            i = i + 1;
        }
        None
    }

    /// Whether a window is registered under `name`.
    pub fn ContainsWindow(&self, name: String) -> (b: bool)
        requires
            self.wf(),
        ensures
            b == self.has(name@),
    {
        self.find(&name).is_some()
    }

    /// The window named `name`.
    pub fn GetWindowReference(&self, name: String) -> (w: &Window)
        requires
            self.wf(),
            self.has(name@),
        ensures
            *w == self.windows@[self.index_of(name@)],
    {
        let i = self.find(&name).unwrap();
        &self.windows[i]
    }

    /// The window named `name`, to change in place.
    pub fn GetWindowReferenceMut(&mut self, name: String) -> (w: &mut Window)
        requires
            old(self).wf(),
            old(self).has(name@),
        ensures
            *w == old(self).windows@[old(self).index_of(name@)],
            final(self).windows@ == old(self).windows@.update(old(self).index_of(name@), *final(w)),
            final(self).names == old(self).names,
            final(self).keywords == old(self).keywords,
            final(self).area == old(self).area,
            final(self).changeWindowLayout == old(self).changeWindowLayout,
            final(self).updated == old(self).updated,
            final(self).resetWindows == old(self).resetWindows,
    {
        let i = self.find(&name).unwrap();
        &mut self.windows[i]
    }

    /// Asks for the layout to be made again.
    pub fn UpdateWindowLayoutOrder(&mut self)
        ensures
            final(self).changeWindowLayout,
            final(self).names == old(self).names,
            final(self).windows == old(self).windows,
            final(self).keywords == old(self).keywords,
            final(self).area == old(self).area,
            final(self).updated == old(self).updated,
            final(self).resetWindows == old(self).resetWindows,
    {
        self.changeWindowLayout = true;
    }

    /// The size of the terminal at the last render.
    pub fn GetWindowArea(&self) -> (r: &Rect)
        ensures
            *r == self.area,
    {
        &self.area
    }

    /// Whether the layout is to be made again.
    pub fn ChangedWindowLayout(&self) -> (b: bool)
        ensures
            b == self.changeWindowLayout,
    {
        self.changeWindowLayout
    }

    /// Registers `window` under the new name `name` with its keywords, after the others; a
    /// visible window changes the layout.
    pub fn AddWindow(&mut self, window: Window, name: String, keywords: Vec<String>)
        requires
            old(self).wf(),
            !old(self).has(name@),
            window.wf(),
        ensures
            final(self).wf(),
            final(self).names@ == old(self).names@.push(name),
            final(self).windows@ == old(self).windows@.push(window),
            final(self).keywords@ == old(self).keywords@.push(keywords),
            final(self).changeWindowLayout == (old(self).changeWindowLayout || !window.hidden),
            final(self).area == old(self).area,
            final(self).updated == old(self).updated,
            final(self).resetWindows == old(self).resetWindows,
    {
        if !window.hidden {
            self.changeWindowLayout = true;
        }
        self.names.push(name);
        self.windows.push(window);
        self.keywords.push(keywords);
        proof {
            assert forall|i: int, j: int| 0 <= i < j < self.names@.len() implies #[trigger] self.names@[i]@
                != #[trigger] self.names@[j]@ by {
                if j == self.names@.len() - 1 {
                    assert(old(self).names@[i] == self.names@[i]);
                }
            }
        }
    }

    /// Takes the window named `name` out of the screen, the layout to be made again and the
    /// windows redrawn; an error names the window when there is none.
    pub fn RemoveWindow(&mut self, name: String) -> (r: Result<Window, String>)
        requires
            old(self).wf(),
        ensures
            final(self).wf(),
            final(self).changeWindowLayout,
            final(self).resetWindows,
            final(self).area == old(self).area,
            final(self).updated == old(self).updated,
            old(self).has(name@) ==> {
                let i = old(self).index_of(name@);
                &&& r == Ok::<Window, String>(old(self).windows@[i])
                &&& final(self).names@ == old(self).names@.remove(i)
                &&& final(self).windows@ == old(self).windows@.remove(i)
                &&& final(self).keywords@ == old(self).keywords@.remove(i)
            },
            !old(self).has(name@) ==> r is Err && r->Err_0@ == "No window named '"@ + name@ + "' found"@
                && final(self).names == old(self).names && final(self).windows == old(self).windows
                && final(self).keywords == old(self).keywords,
    {
        self.changeWindowLayout = true;
        self.resetWindows = true;
        match self.find(&name) {
            None => {
                let a = string_of_str("No window named '");
                let b = string_of_str("' found");
                let msg = concat(&concat(&a, &name), &b);
                Err(msg)
            },
            Some(i) => {
                let ghost n0 = self.names@;
                self.names.remove(i);
                self.keywords.remove(i);
                let w = self.windows.remove(i);
                proof {
                    assert forall|a: int, b: int| 0 <= a < b < self.names@.len() implies #[trigger] self.names@[a]@
                        != #[trigger] self.names@[b]@ by {
                        let a0 = if a < i { a } else { a + 1 };
                        let b0 = if b < i { b } else { b + 1 };
                        assert(self.names@[a] == n0[a0]);
                        assert(self.names@[b] == n0[b0]);
                    }
                    assert forall|k: int| 0 <= k < self.windows@.len() implies #[trigger] self.windows@[k].wf() by {
                        let k0 = if k < i { k } else { k + 1 };
                        assert(self.windows@[k] == old(self).windows@[k0]);
                    }
                }
                Ok(w)
            },
        }
    }

    /// The names of all windows, in the order they were added.
    pub fn GetWindowNames(&self) -> (names: Vec<&String>)
        ensures
            names@.len() == self.names@.len(),
            forall|k: int| 0 <= k < names@.len() ==> *#[trigger] names@[k] == self.names@[k],
    {
        let mut names: Vec<&String> = Vec::new();
        let mut i: usize = 0;
        while i < self.names.len()
            invariant
                i <= self.names@.len(),
                names@.len() == i,
                forall|k: int| 0 <= k < i ==> *#[trigger] names@[k] == self.names@[k],
            decreases self.names@.len() - i,
        {
            names.push(&self.names[i]);
            i = i + 1;
        }
        names
    }

    /// The screen with the windows at the indices `select(keep, n)` of the old one, in order.
    pub open spec fn kept(&self, before: &App, keep: spec_fn(int) -> bool) -> bool {
        let sel = select(keep, before.names@.len() as int);
        &&& self.names@.len() == sel.len()
        &&& self.windows@.len() == sel.len()
        &&& self.keywords@.len() == sel.len()
        &&& forall|k: int| 0 <= k < sel.len() ==> #[trigger] self.names@[k] == before.names@[sel[k]]
        &&& forall|k: int| 0 <= k < sel.len() ==> #[trigger] self.windows@[k] == before.windows@[sel[k]]
        &&& forall|k: int| 0 <= k < sel.len() ==> #[trigger] self.keywords@[k] == before.keywords@[sel[k]]
    }

    /// The screen after removing from `before` the windows whose mark is set, `count` of
    /// them; when any went, the layout is to be made again and everything redrawn.
    pub open spec fn pruned(&self, before: &App, marks: Seq<bool>, count: int) -> bool {
        let keep = |i: int| !marks[i];
        &&& marks.len() == before.names@.len()
        &&& self.kept(before, keep)
        &&& count == before.names@.len() - select(keep, before.names@.len() as int).len()
        &&& self.area == before.area
        &&& count == 0 ==> self.changeWindowLayout == before.changeWindowLayout
            && self.updated == before.updated && self.resetWindows == before.resetWindows
        &&& count > 0 ==> self.changeWindowLayout && self.updated && self.resetWindows
    }

    /// Removes the windows whose mark is set; when any goes, the layout is made again and
    /// everything redrawn. Gives how many went.
    fn remove_marked(&mut self, marks: Vec<bool>) -> (count: usize)
        requires
            old(self).wf(),
            marks@.len() == old(self).names@.len(),
        ensures
            final(self).wf(),
            final(self).pruned(old(self), marks@, count as int),
    {
        let ghost keep = |i: int| !marks@[i];
        let ghost before = *self;
        let n = self.names.len();
        let mut i: usize = 0;
        let mut j: usize = 0;
        let mut count: usize = 0;
        while i < n
            invariant
                before == *old(self),
                before.wf(),
                keep == (|i: int| !marks@[i]),
                n == before.names@.len(),
                marks@.len() == n,
                i <= n,
                j == select(keep, i as int).len(),
                count == i - j,
                self.names@.len() == j + (n - i),
                self.windows@.len() == j + (n - i),
                self.keywords@.len() == j + (n - i),
                self.area == before.area,
                self.changeWindowLayout == before.changeWindowLayout,
                self.updated == before.updated,
                self.resetWindows == before.resetWindows,
                forall|k: int| 0 <= k < j ==> #[trigger] self.names@[k] == before.names@[select(keep, i as int)[k]],
                forall|k: int| 0 <= k < j ==> #[trigger] self.windows@[k] == before.windows@[select(keep, i as int)[k]],
                forall|k: int| 0 <= k < j ==> #[trigger] self.keywords@[k] == before.keywords@[select(keep, i as int)[k]],
                forall|k: int| i <= k < n ==> #[trigger] before.names@[k] == self.names@[j + k - i],
                forall|k: int| i <= k < n ==> #[trigger] before.windows@[k] == self.windows@[j + k - i],
                forall|k: int| i <= k < n ==> #[trigger] before.keywords@[k] == self.keywords@[j + k - i],
            decreases n - i,
        {
            proof {
                lemma_select_bounds(keep, i as int);
                lemma_select_bounds(keep, i + 1);
                assert(select(keep, i + 1) == select(keep, i as int) + if keep(i as int) {
                    seq![i as int]
                } else {
                    Seq::<int>::empty()
                });
            }
            let ghost n0 = self.names@;
            let ghost w0 = self.windows@;
            let ghost k0 = self.keywords@;
            if marks[i] {
                self.names.remove(j);
                self.windows.remove(j);
                self.keywords.remove(j);
                count = count + 1;
                proof {
                    assert(select(keep, i + 1) =~= select(keep, i as int));
                    assert forall|k: int| i + 1 <= k < n implies #[trigger] before.names@[k] == self.names@[j + k - (i + 1)] by {
                        assert(self.names@[j + k - (i + 1)] == n0[j + k - i]);
                    }
                    assert forall|k: int| i + 1 <= k < n implies #[trigger] before.windows@[k] == self.windows@[j + k - (i + 1)] by {
                        assert(self.windows@[j + k - (i + 1)] == w0[j + k - i]);
                    }
                    assert forall|k: int| i + 1 <= k < n implies #[trigger] before.keywords@[k] == self.keywords@[j + k - (i + 1)] by {
                        assert(self.keywords@[j + k - (i + 1)] == k0[j + k - i]);
                    }
                }
            } else {
                proof {
                    assert(select(keep, i + 1) =~= select(keep, i as int).push(i as int));
                    assert(before.names@[i as int] == self.names@[j as int]);
                }
                j = j + 1;
            }
            i = i + 1;
        }
        if count > 0 {
            self.changeWindowLayout = true;
            self.resetWindows = true;
            self.updated = true;
        }
        proof {
            lemma_select_bounds(keep, n as int);
            let sel = select(keep, n as int);
            assert forall|a: int, b: int| 0 <= a < b < self.names@.len() implies #[trigger] self.names@[a]@
                != #[trigger] self.names@[b]@ by {
                assert(sel[a] < sel[b]);
            }
            assert forall|k: int| 0 <= k < self.windows@.len() implies #[trigger] self.windows@[k].wf() by {
                assert(self.windows@[k] == before.windows@[sel[k]]);
            }
        }
        count
    }

    /// Removes every window whose keywords `key` answers `true` for, asking it once per
    /// window in order; gives how many went.
    pub fn PruneByKey<F: Fn(&Vec<String>) -> bool>(&mut self, key: F) -> (count: usize)
        requires
            old(self).wf(),
            forall|i: int| 0 <= i < old(self).keywords@.len() ==> call_requires(key, (#[trigger] &old(self).keywords@[i],)),
        ensures
            final(self).wf(),
            exists|marks: Seq<bool>| {
                &&& #[trigger] final(self).pruned(old(self), marks, count as int)
                &&& forall|i: int| 0 <= i < marks.len() ==> call_ensures(key, (&old(self).keywords@[i],), #[trigger] marks[i])
            },
    {
        let mut marks: Vec<bool> = Vec::new();
        let mut i: usize = 0;
        while i < self.keywords.len()
            invariant
                self.wf(),
                *self == *old(self),
                i <= self.keywords@.len(),
                marks@.len() == i,
                forall|i: int| 0 <= i < old(self).keywords@.len() ==> call_requires(key, (#[trigger] &old(self).keywords@[i],)),
                forall|k: int| 0 <= k < i ==> call_ensures(key, (&self.keywords@[k],), #[trigger] marks@[k]),
            decreases self.keywords@.len() - i,
        {
            let b = key(&self.keywords[i]);
            marks.push(b);
            i = i + 1;
        }
        let ghost m = marks@;
        let count = self.remove_marked(marks);
        proof {
            assert(forall|i: int| 0 <= i < m.len() ==> call_ensures(key, (&old(self).keywords@[i],), #[trigger] m[i]));
            assert(self.pruned(old(self), m, count as int));
        }
        count
    }

    /// The names of the windows with one of `keywords` among their own, in window order.
    pub fn GetWindowsByKeywords(&self, keywords: Vec<String>) -> (names: Vec<&String>)
        requires
            self.wf(),
        ensures
            ({
                let sel = select(|i: int| shares_word(self.keywords@[i]@, keywords@), self.names@.len() as int);
                &&& names@.len() == sel.len()
                &&& forall|k: int| 0 <= k < sel.len() ==> *#[trigger] names@[k] == self.names@[sel[k]]
            }),
    {
        let ghost pick = |i: int| shares_word(self.keywords@[i]@, keywords@);
        let mut names: Vec<&String> = Vec::new();
        let mut i: usize = 0;
        while i < self.names.len()
            invariant
                self.wf(),
                pick == (|i: int| shares_word(self.keywords@[i]@, keywords@)),
                i <= self.names@.len(),
                names@.len() == select(pick, i as int).len(),
                forall|k: int| 0 <= k < names@.len() ==> *#[trigger] names@[k] == self.names@[select(pick, i as int)[k]],
            decreases self.names@.len() - i,
        {
            proof {
                assert(select(pick, i + 1) == select(pick, i as int) + if pick(i as int) {
                    seq![i as int]
                } else {
                    Seq::<int>::empty()
                });
            }
            if shares_a_word(&self.keywords[i], &keywords) {
                names.push(&self.names[i]);
                proof {
                    assert(select(pick, i + 1) =~= select(pick, i as int).push(i as int));
                }
            } else {
                proof {
                    assert(select(pick, i + 1) =~= select(pick, i as int));
                }
            }
            i = i + 1;
        }
        names
    }

    /// The names of the windows with one of `keywords` among their own, in window order, as
    /// new strings.
    pub fn GetWindowsByKeywordsNonRef(&self, keywords: Vec<String>) -> (names: Vec<String>)
        requires
            self.wf(),
        ensures
            ({
                let sel = select(|i: int| shares_word(self.keywords@[i]@, keywords@), self.names@.len() as int);
                &&& names@.len() == sel.len()
                &&& forall|k: int| 0 <= k < sel.len() ==> #[trigger] names@[k]@ == self.names@[sel[k]]@
            }),
    {
        let refs = self.GetWindowsByKeywords(keywords);
        let mut names: Vec<String> = Vec::new();
        let mut i: usize = 0;
        while i < refs.len()
            invariant
                i <= refs@.len(),
                names@.len() == i,
                forall|k: int| 0 <= k < i ==> #[trigger] names@[k]@ == (*refs@[k])@,
            decreases refs@.len() - i,
        {
            names.push(refs[i].clone());
            i = i + 1;
        }
        names
    }

    /// `names` are the names of the windows whose mark is set, in window order.
    pub open spec fn listed(&self, names: Seq<&String>, marks: Seq<bool>) -> bool {
        let sel = select(|i: int| marks[i], self.names@.len() as int);
        &&& marks.len() == self.names@.len()
        &&& names.len() == sel.len()
        &&& forall|k: int| 0 <= k < sel.len() ==> *#[trigger] names[k] == self.names@[sel[k]]
    }

    /// The names of the windows whose keywords `key` answers `true` for, in window order.
    pub fn GetWindowsByKey<F: Fn(&Vec<String>) -> bool>(&self, key: F) -> (names: Vec<&String>)
        requires
            self.wf(),
            forall|i: int| 0 <= i < self.keywords@.len() ==> call_requires(key, (#[trigger] &self.keywords@[i],)),
        ensures
            exists|marks: Seq<bool>| {
                &&& #[trigger] self.listed(names@, marks)
                &&& forall|i: int| 0 <= i < marks.len() ==> call_ensures(key, (&self.keywords@[i],), #[trigger] marks[i])
            },
    {
        let ghost mut marks: Seq<bool> = Seq::empty();
        let mut names: Vec<&String> = Vec::new();
        let mut i: usize = 0;
        while i < self.names.len()
            invariant
                self.wf(),
                forall|i: int| 0 <= i < self.keywords@.len() ==> call_requires(key, (#[trigger] &self.keywords@[i],)),
                i <= self.names@.len(),
                marks.len() == i,
                forall|k: int| 0 <= k < i ==> call_ensures(key, (&self.keywords@[k],), #[trigger] marks[k]),
                names@.len() == select(|j: int| marks[j], i as int).len(),
                forall|k: int| 0 <= k < names@.len() ==> *#[trigger] names@[k] == self.names@[select(|j: int| marks[j], i as int)[k]],
            decreases self.names@.len() - i,
        {
            let b = key(&self.keywords[i]);
            let ghost m0 = marks;
            proof {
                marks = marks.push(b);
                lemma_select_agree(|j: int| m0[j], |j: int| marks[j], i as int);
                assert(select(|j: int| marks[j], i + 1) == select(|j: int| marks[j], i as int) + if b {
                    seq![i as int]
                } else {
                    Seq::<int>::empty()
                });
            }
            if b {
                names.push(&self.names[i]);
                proof {
                    assert(select(|j: int| marks[j], i + 1) =~= select(|j: int| marks[j], i as int).push(i as int));
                }
            } else {
                proof {
                    assert(select(|j: int| marks[j], i + 1) =~= select(|j: int| marks[j], i as int));
                }
            }
            i = i + 1;
        }
        proof {
            assert(self.listed(names@, marks));
        }
        names
    }

    /// Whether a render on a terminal of `size` starts over: the size changed or windows
    /// were removed.
    pub open spec fn resets(&self, size: (u16, u16)) -> bool {
        size.0 != self.area.width || size.1 != self.area.height || self.resetWindows
    }

    /// Whether window `i` counts as up to date when the render starts.
    pub open spec fn was_current(&self, size: (u16, u16), i: int) -> bool {
        if self.resets(size) && !self.windows@[i].hidden {
            false
        } else {
            self.windows@[i].wasUpdated
        }
    }

    /// The rows window `i` draws in a render on a terminal of `size` (all of a visible
    /// window's rows when the render starts over).
    pub open spec fn window_jobs(&self, size: (u16, u16), i: int) -> Seq<JobView> {
        let w = self.windows@[i];
        if self.resets(size) && !w.hidden {
            pending_jobs(w, Seq::new(w.updated@.len(), |k: int| false), false)
        } else {
            pending_jobs(w, w.updated@, w.wasUpdated)
        }
    }

    /// The rows of all windows, in window order.
    pub open spec fn all_jobs(&self, size: (u16, u16)) -> Seq<JobView> {
        concat_all(Seq::new(self.windows@.len(), |i: int| self.window_jobs(size, i)))
    }

    /// Renders the screen on a terminal of `size`. When the size changed or windows were
    /// removed, the terminal is to be cleared and every visible window redrawn. When no
    /// window is out of date nothing is drawn; else every window gives its rows (see
    /// `pending_jobs`), which are drawn in the order of a stable sort by `job_key`, and the
    /// cursor is parked at the bottom right.
    pub fn Render(&mut self, size: (u16, u16)) -> (frame: Frame)
        requires
            old(self).wf(),
            forall|i: int| 0 <= i < old(self).windows@.len() ==> render_ready(#[trigger] old(self).windows@[i]),
        ensures
            final(self).wf(),
            final(self).names == old(self).names,
            final(self).keywords == old(self).keywords,
            final(self).windows@.len() == old(self).windows@.len(),
            forall|i: int| 0 <= i < final(self).windows@.len() ==> render_ready(#[trigger] final(self).windows@[i]),
            final(self).area == (Rect { width: size.0, height: size.1 }),
            final(self).changeWindowLayout == old(self).changeWindowLayout,
            final(self).updated == old(self).updated,
            frame.clear == old(self).resets(size),
            final(self).resetWindows == (old(self).resetWindows && !old(self).resets(size)),
            (forall|i: int| 0 <= i < old(self).windows@.len() ==> old(self).was_current(size, i)) ==> frame.calls == 0
                && frame.text@.len() == 0,
            (exists|i: int| 0 <= i < old(self).windows@.len() && !old(self).was_current(size, i)) ==> {
                let all = old(self).all_jobs(size);
                &&& frame.calls == all.len()
                &&& exists|perm: Seq<int>, out: Seq<JobView>| stable_order(all, size, perm) && #[trigger] permuted(all, perm, out)
                    && frame.text@ == frame_text(out, size)
            },
    {
        let reset = size.0 != self.area.width || size.1 != self.area.height || self.resetWindows;
        let ghost start = *self;
        let n = self.windows.len();
        if reset {
            self.resetWindows = false;
            let mut i: usize = 0;
            while i < n
                invariant
                    n == self.windows@.len(),
                    n == start.windows@.len(),
                    i <= n,
                    start.wf(),
                    start.resets(size),
                    self.names == start.names,
                    self.keywords == start.keywords,
                    self.area == start.area,
                    self.changeWindowLayout == start.changeWindowLayout,
                    self.updated == start.updated,
                    !self.resetWindows,
                    forall|k: int| 0 <= k < n ==> render_ready(#[trigger] start.windows@[k]),
                    forall|k: int| i <= k < n ==> #[trigger] self.windows@[k] == start.windows@[k],
                    forall|k: int| 0 <= k < i ==> {
                        &&& render_ready(#[trigger] self.windows@[k])
                        &&& self.windows@[k].hidden == start.windows@[k].hidden
                        &&& self.windows@[k].wasUpdated == start.was_current(size, k)
                        &&& pending_jobs(self.windows@[k], self.windows@[k].updated@, self.windows@[k].wasUpdated)
                            == start.window_jobs(size, k)
                    },
                decreases n - i,
            {
                if !self.windows[i].hidden {
                    let ghost w0 = self.windows@[i as int];
                    self.windows[i].UpdateAll();
                    proof {
                        let w1 = self.windows@[i as int];
                        assert(w1.updated@ =~= Seq::new(w0.updated@.len(), |k: int| false));
                        assert(w1.border_code() == w0.border_code());
                    }
                }
                i = i + 1;
            }
        }
        self.area = Rect { width: size.0, height: size.1 };
        let ghost mid = *self;
        proof {
            assert forall|k: int| 0 <= k < n implies {
                &&& #[trigger] mid.windows@[k].wasUpdated == start.was_current(size, k)
                &&& pending_jobs(mid.windows@[k], mid.windows@[k].updated@, mid.windows@[k].wasUpdated)
                    == start.window_jobs(size, k)
            } by {
                if !reset {
                    assert(mid.windows@[k] == start.windows@[k]);
                }
            }
            assert(mid.wf()) by {
                assert forall|k: int| 0 <= k < n implies #[trigger] mid.windows@[k].wf() by {
                    assert(render_ready(mid.windows@[k]));
                }
            }
        }
        let mut any = false;
        let mut i: usize = 0;
        while i < n
            invariant
                n == self.windows@.len(),
                *self == mid,
                i <= n,
                !any ==> forall|k: int| 0 <= k < i ==> #[trigger] self.windows@[k].wasUpdated,
                any ==> exists|k: int| 0 <= k < n && !#[trigger] self.windows@[k].wasUpdated,
            decreases n - i,
        {
            if !self.windows[i].wasUpdated {
                any = true;
            }
            i = i + 1;
        }
        if !any {
            proof {
                assert forall|k: int| 0 <= k < start.windows@.len() implies start.was_current(size, k) by {
                    assert(self.windows@[k].wasUpdated);
                }
            }
            return Frame { clear: reset, calls: 0, text: String::new() };
        }
        let mut jobs: Vec<RenderJob> = Vec::new();
        let mut i: usize = 0;
        while i < n
            invariant
                n == self.windows@.len(),
                i <= n,
                self.names == mid.names,
                self.keywords == mid.keywords,
                self.area == mid.area,
                self.changeWindowLayout == mid.changeWindowLayout,
                self.updated == mid.updated,
                self.resetWindows == mid.resetWindows,
                self.names@.len() == n,
                self.keywords@.len() == n,
                mid.wf(),
                forall|k: int| 0 <= k < n ==> render_ready(#[trigger] mid.windows@[k]),
                forall|k: int| 0 <= k < n ==> pending_jobs(#[trigger] mid.windows@[k], mid.windows@[k].updated@, mid.windows@[k].wasUpdated)
                    == start.window_jobs(size, k),
                forall|k: int| i <= k < n ==> #[trigger] self.windows@[k] == mid.windows@[k],
                forall|k: int| 0 <= k < i ==> render_ready(#[trigger] self.windows@[k]),
                jobs_view(jobs@) == concat_all(Seq::new(i as nat, |k: int| start.window_jobs(size, k))),
            decreases n - i,
        {
            let ghost w0 = self.windows@[i as int];
            let ghost j0 = jobs_view(jobs@);
            let mut js = self.windows[i].GetRenderClosure();
            proof {
                let w1 = self.windows@[i as int];
                assert(jobs_view(js@) == pending_jobs(w0, w0.updated@, w0.wasUpdated));
                assert(render_ready(w1));
            }
            jobs.append(&mut js);
            proof {
                let ss = Seq::new((i + 1) as nat, |k: int| start.window_jobs(size, k));
                assert(ss.drop_last() =~= Seq::new(i as nat, |k: int| start.window_jobs(size, k)));
                assert(jobs_view(jobs@) =~= j0 + start.window_jobs(size, i as int));
            }
            i = i + 1;
        }
        proof {
            assert(Seq::new(n as nat, |k: int| start.window_jobs(size, k)) =~= Seq::new(start.windows@.len(), |k: int| start.window_jobs(size, k)));
        }
        let sorted = SortJobs(&jobs, size);
        let text = DrawJobs(&sorted, size);
        proof {
            let all = start.all_jobs(size);
            assert(jobs_view(jobs@) == all);
            let perm = choose|perm: Seq<int>| #[trigger] stable_order(jobs_view(jobs@), size, perm)
                && permuted(jobs_view(jobs@), perm, jobs_view(sorted@));
            assert(stable_order(all, size, perm) && permuted(all, perm, jobs_view(sorted@)));
            assert(jobs@.len() == jobs_view(jobs@).len());
        }
        Frame { clear: reset, calls: jobs.len(), text }
    }

    /// Whether every window can render itself (see `render_ready`).
    pub fn CanRender(&self) -> (b: bool)
        requires
            self.wf(),
        ensures
            b == forall|i: int| 0 <= i < self.windows@.len() ==> render_ready(#[trigger] self.windows@[i]),
    {
        let mut i: usize = 0;
        while i < self.windows.len()
            invariant
                self.wf(),
                i <= self.windows@.len(),
                forall|k: int| 0 <= k < i ==> render_ready(#[trigger] self.windows@[k]),
            decreases self.windows@.len() - i,
        {
            let w = &self.windows[i];
            let rows_fit = (w.position.1 as usize) <= 65536 && w.updated.len() <= 65536 - w.position.1 as usize;
            let border_fits = if w.bordered {
                let t = w.title.1;
                t < 65536 && w.size.0 >= 2 && w.size.1 >= 1 && (w.size.0 / 2) as usize >= t / 2 + 1 && (w.size.0 as usize)
                    + t / 2 >= t + (w.size.0 / 2) as usize + 1
            } else {
                true
            };
            if !(rows_fit && w.depth < 65535 && border_fits) {
                return false;
            }
            proof {
                assert(self.windows@[i as int].wf());
                if w.bordered {
                    let ww = w.size.0 as int;
                    let t = w.title.1 as int;
                    assert(ww - 2 - (ww / 2 - t / 2 - 1) >= t);
                }
                assert(render_ready(*w));
            }
            i = i + 1;
        }
        true
    }

    /// Whether the window named `windowName` has `keyword` among its keywords.
    pub fn WindowContainsKeyword(&self, windowName: &String, keyword: &String) -> (b: bool)
        requires
            self.wf(),
            self.has(windowName@),
        ensures
            b == exists|j: int| 0 <= j < self.keywords@[self.index_of(windowName@)]@.len()
                && #[trigger] self.keywords@[self.index_of(windowName@)]@[j]@ == keyword@,
    {
        let i = self.find(windowName).unwrap();
        contains_string(&self.keywords[i], keyword)
    }

    /// Removes every window with one of `keywords` among its own; gives how many went.
    pub fn PruneByKeywords(&mut self, keywords: Vec<String>) -> (count: usize)
        requires
            old(self).wf(),
        ensures
            final(self).wf(),
            final(self).pruned(
                old(self),
                Seq::new(old(self).names@.len(), |i: int| shares_word(old(self).keywords@[i]@, keywords@)),
                count as int,
            ),
    {
        let mut marks: Vec<bool> = Vec::new();
        let mut i: usize = 0;
        while i < self.keywords.len()
            invariant
                self.wf(),
                i <= self.keywords@.len(),
                marks@.len() == i,
                forall|k: int| 0 <= k < i ==> #[trigger] marks@[k] == shares_word(self.keywords@[k]@, keywords@),
            decreases self.keywords@.len() - i,
        {
            marks.push(shares_a_word(&self.keywords[i], &keywords));
            i = i + 1;
        }
        let ghost m = marks@;
        let count = self.remove_marked(marks);
        proof {
            assert(m =~= Seq::new(old(self).names@.len(), |i: int| shares_word(old(self).keywords@[i]@, keywords@)));
        }
        count
    }
}

} // verus!
