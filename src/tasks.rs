//! Download tasks: the line and argument grammars, and deduplication.
use vstd::prelude::*;
use crate::size::{parse_size, size_bits, unit_is};
use crate::text::{chars_of, has_prefix, split_words, starts_with, trim, trim_str, views, words};

verus! {

/// One requested download.
#[derive(Debug)]
pub struct DownloadTask {
    pub url: String,
    pub size: Option<String>,
    pub twofa: Option<String>,
}

pub struct TaskView {
    pub url: Seq<char>,
    pub size: Option<Seq<char>>,
    pub twofa: Option<Seq<char>>,
}

pub open spec fn opt_view(o: Option<String>) -> Option<Seq<char>> {
    match o {
        Some(s) => Some(s@),
        None => None,
    }
}

impl View for DownloadTask {
    type V = TaskView;

    open spec fn view(&self) -> TaskView {
        TaskView { url: self.url@, size: opt_view(self.size), twofa: opt_view(self.twofa) }
    }
}

pub open spec fn task_views(v: Seq<DownloadTask>) -> Seq<TaskView> {
    v.map_values(|t: DownloadTask| t@)
}

fn copy_opt(o: &Option<String>) -> (r: Option<String>)
    ensures
        opt_view(r) == opt_view(*o),
{
    match o {
        Some(s) => Some(s.clone()),
        None => None,
    }
}

impl DownloadTask {
    pub fn new(url: String, size: Option<String>, twofa: Option<String>) -> (r: DownloadTask)
        ensures
            r@ == (TaskView { url: url@, size: opt_view(size), twofa: opt_view(twofa) }),
    {
        DownloadTask { url, size, twofa }
    }

    pub fn copy(&self) -> (r: DownloadTask)
        ensures
            r@ == self@,
    {
        DownloadTask { url: self.url.clone(), size: copy_opt(&self.size), twofa: copy_opt(&self.twofa) }
    }
}

/// An address with an `http://` or `https://` scheme.
pub open spec fn url_like(s: Seq<char>) -> bool {
    starts_with(s, "http://"@) || starts_with(s, "https://"@)
}

pub fn is_url(s: &str) -> (r: bool)
    ensures
        r == url_like(s@),
{
    let v = chars_of(s);
    has_prefix(&v, "http://") || has_prefix(&v, "https://")
}

pub open spec fn resolvable(s: Seq<char>) -> bool {
    size_bits(s) is Some
}

/// Tasks from a run of words: each URL starts a task, the word after it is the
/// size where it resolves, and the next word is the second-factor code where it
/// is neither a URL nor a size. Other words are passed over.
pub open spec fn args_tasks(a: Seq<Seq<char>>, i: int) -> Seq<TaskView>
    decreases a.len() - i,
{
    if i < 0 || i >= a.len() {
        Seq::empty()
    } else if !url_like(a[i]) {
        args_tasks(a, i + 1)
    } else {
        let j = i + 1;
        let has_size = j < a.len() && resolvable(a[j]);
        let k = if has_size {
            j + 1
        } else {
            j
        };
        let has_code = k < a.len() && !url_like(a[k]) && !resolvable(a[k]);
        let next = if has_code {
            k + 1
        } else {
            k
        };
        seq![
            TaskView {
                url: a[i],
                size: if has_size {
                    Some(a[j])
                } else {
                    None
                },
                twofa: if has_code {
                    Some(a[k])
                } else {
                    None
                },
            },
        ] + args_tasks(a, next)
    }
}

pub fn parse_args_to_tasks(args: &Vec<String>) -> (r: Vec<DownloadTask>)
    ensures
        task_views(r@) == args_tasks(views(args@), 0),
{
    let ghost a = views(args@);
    let n = args.len();
    let mut r: Vec<DownloadTask> = Vec::new();
    let mut i: usize = 0;
    assert(task_views(r@) =~= Seq::<TaskView>::empty());
    while i < n
        invariant
            n == args@.len() == a.len(),
            a == views(args@),
            i <= n,
            task_views(r@) + args_tasks(a, i as int) == args_tasks(a, 0),
        decreases n - i,
    {
        let ghost i0 = i as int;
        if !is_url(args[i].as_str()) {
            i = i + 1;
        } else {
            let url = args[i].clone();
            i = i + 1;
            let size = if i < n && parse_size(args[i].as_str()).is_some() {
                let s = args[i].clone();
                i = i + 1;
                Some(s)
            } else {
                None
            };
            let twofa = if i < n && !is_url(args[i].as_str()) && parse_size(args[i].as_str()).is_none() {
                let c = args[i].clone();
                i = i + 1;
                Some(c)
            } else {
                None
            };
            let t = DownloadTask { url, size, twofa };
            let ghost old_r = r@;
            r.push(t);
            proof {
                assert(task_views(r@) =~= task_views(old_r) + seq![t@]);
                assert(args_tasks(a, i0) =~= seq![t@] + args_tasks(a, i as int));
                assert(task_views(r@) + args_tasks(a, i as int) =~= task_views(old_r) + args_tasks(a, i0));
            }
        }
    }
    assert(task_views(r@) + args_tasks(a, n as int) =~= task_views(r@));
    r
}

/// A batch line `<url> [size] [twofa]`, read with the argument grammar: the
/// task that its first word starts, where that word is a URL.
pub open spec fn line_task(l: Seq<char>) -> Option<TaskView> {
    let p = words(l);
    if p.len() == 0 || !url_like(p[0]) {
        None
    } else {
        Some(args_tasks(p, 0)[0])
    }
}

pub fn parse_line_to_task(line: &str) -> (r: Option<DownloadTask>)
    ensures
        match line_task(line@) {
            None => r is None,
            Some(t) => r is Some && r->Some_0@ == t,
        },
{
    let parts = split_words(line);
    proof {
        assert(views(parts@).len() == parts@.len());
    }
    if parts.len() == 0 || !is_url(parts[0].as_str()) {
        return None;
    }
    let tasks = parse_args_to_tasks(&parts);
    proof {
        let a = views(parts@);
        assert(a[0] == parts@[0]@);
        assert(args_tasks(a, 0).len() > 0);
        assert(task_views(tasks@).len() == tasks@.len());
    }
    assert(task_views(tasks@)[0] == tasks@[0]@);
    Some(tasks[0].copy())
}


/// A prompt line that ends the session: `q`, `quit` or `exit` in any ASCII
/// case, with surrounding whitespace ignored.
pub open spec fn quit_line(l: Seq<char>) -> bool {
    let t = trim(l);
    unit_is(t, seq!['q']) || unit_is(t, seq!['q', 'u', 'i', 't']) || unit_is(t, seq!['e', 'x', 'i', 't'])
}

pub fn is_quit(line: &str) -> (r: bool)
    ensures
        r == quit_line(line@),
{
    let t = chars_of(trim_str(line).as_str());
    let q = vec!['q'];
    let quit = vec!['q', 'u', 'i', 't'];
    let exit = vec!['e', 'x', 'i', 't'];
    assert(q@ =~= seq!['q'] && quit@ =~= seq!['q', 'u', 'i', 't'] && exit@ =~= seq!['e', 'x', 'i', 't']);
    crate::size::spells(&t, &q) || crate::size::spells(&t, &quit) || crate::size::spells(&t, &exit)
}

/// A batch line that carries nothing: blank, or a `#` or `//` comment.
pub open spec fn ignored_line(t: Seq<char>) -> bool {
    t.len() == 0 || starts_with(t, "#"@) || starts_with(t, "//"@)
}

/// The log entry for a batch line that is not a task.
pub open spec fn skipped_entry(t: Seq<char>) -> Seq<char> {
    "SKIPPED: "@ + t
}

/// Tasks of the first `n` batch lines, in order.
pub open spec fn batch_tasks(lines: Seq<Seq<char>>, n: int) -> Seq<TaskView>
    decreases n,
{
    if n <= 0 {
        Seq::empty()
    } else {
        let t = trim(lines[n - 1]);
        let prev = batch_tasks(lines, n - 1);
        if !ignored_line(t) && line_task(t) is Some {
            prev.push(line_task(t).unwrap())
        } else {
            prev
        }
    }
}

/// Log entries for the first `n` batch lines that are neither ignored nor tasks.
pub open spec fn batch_skips(lines: Seq<Seq<char>>, n: int) -> Seq<Seq<char>>
    decreases n,
{
    if n <= 0 {
        Seq::empty()
    } else {
        let t = trim(lines[n - 1]);
        let prev = batch_skips(lines, n - 1);
        if !ignored_line(t) && line_task(t) is None {
            prev.push(skipped_entry(t))
        } else {
            prev
        }
    }
}

/// Reads the lines of a batch file: the tasks, and a log entry for each line
/// that is neither blank, a comment, nor a task.
pub fn parse_batch(lines: &Vec<String>) -> (r: (Vec<DownloadTask>, Vec<String>))
    ensures
        task_views(r.0@) == batch_tasks(views(lines@), lines@.len() as int),
        views(r.1@) == batch_skips(views(lines@), lines@.len() as int),
{
    let ghost ls = views(lines@);
    let mut tasks: Vec<DownloadTask> = Vec::new();
    let mut skips: Vec<String> = Vec::new();
    let mut i: usize = 0;
    assert(task_views(tasks@) =~= Seq::<TaskView>::empty());
    assert(views(skips@) =~= Seq::<Seq<char>>::empty());
    while i < lines.len()
        invariant
            ls == views(lines@),
            ls.len() == lines@.len(),
            i <= lines@.len(),
            task_views(tasks@) == batch_tasks(ls, i as int),
            views(skips@) == batch_skips(ls, i as int),
        decreases lines@.len() - i,
    {
        let t = trim_str(lines[i].as_str());
        let tv = chars_of(t.as_str());
        let ghost old_t = tasks@;
        let ghost old_s = skips@;
        assert(ls[i as int] == lines@[i as int]@);
        if !(t.unicode_len() == 0 || has_prefix(&tv, "#") || has_prefix(&tv, "//")) {
            match parse_line_to_task(t.as_str()) {
                Some(task) => {
                    tasks.push(task);
                    assert(task_views(tasks@) =~= task_views(old_t).push(task@));
                },
                None => {
                    let entry = String::from_str("SKIPPED: ").concat(t.as_str());
                    skips.push(entry);
                    assert(views(skips@) =~= views(old_s).push(skipped_entry(t@)));
                },
            }
        }
        i = i + 1;
    }
    (tasks, skips)
}

/// Whether some task among the first `n` has this URL.
pub open spec fn url_among(s: Seq<TaskView>, url: Seq<char>, n: int) -> bool {
    exists|j: int| 0 <= j < n && #[trigger] s[j].url == url
}

/// The tasks that run: each URL's first task, in order.
pub open spec fn dedup_spec(s: Seq<TaskView>) -> Seq<TaskView>
    decreases s.len(),
{
    if s.len() == 0 {
        Seq::empty()
    } else {
        let prev = dedup_spec(s.drop_last());
        if url_among(s, s.last().url, s.len() - 1) {
            prev
        } else {
            prev.push(s.last())
        }
    }
}

/// The URLs of the tasks passed over as duplicates, in order.
pub open spec fn duplicates_spec(s: Seq<TaskView>) -> Seq<Seq<char>>
    decreases s.len(),
{
    if s.len() == 0 {
        Seq::empty()
    } else {
        let prev = duplicates_spec(s.drop_last());
        if url_among(s, s.last().url, s.len() - 1) {
            prev.push(s.last().url)
        } else {
            prev
        }
    }
}

/// Of two tasks with one URL and another task between them, only the first
/// runs, and the second is reported as a duplicate.
pub proof fn lemma_repeated_url_runs_once(a: TaskView, b: TaskView, again: TaskView)
    requires
        a.url != b.url,
        again.url == a.url,
    ensures
        dedup_spec(seq![a, b, again]) == seq![a, b],
        duplicates_spec(seq![a, b, again]) == seq![a.url],
{
    let s = seq![a, b, again];
    assert(s.drop_last() =~= seq![a, b]);
    assert(seq![a, b].drop_last() =~= seq![a]);
    assert(seq![a].drop_last() =~= Seq::<TaskView>::empty());
    assert(!url_among(seq![a], a.url, 0));
    assert(!url_among(seq![a, b], b.url, 1));
    assert(url_among(s, again.url, 2)) by {
        assert(s[0].url == again.url);
    }
    assert(seq![a].drop_last().len() == 0);
    assert(dedup_spec(seq![a].drop_last()) =~= Seq::<TaskView>::empty());
    assert(duplicates_spec(seq![a].drop_last()) =~= Seq::<Seq<char>>::empty());
    assert(dedup_spec(seq![a]) =~= seq![a]);
    assert(dedup_spec(seq![a, b]) =~= seq![a, b]);
    assert(duplicates_spec(seq![a]) =~= Seq::<Seq<char>>::empty());
    assert(duplicates_spec(seq![a, b]) =~= Seq::<Seq<char>>::empty());
    assert(duplicates_spec(s) =~= seq![a.url]);
}

/// Whatever the tasks: each URL runs exactly once, by its first task, and
/// every other task is reported as a duplicate.
pub proof fn lemma_dedup_each_url_once(s: Seq<TaskView>)
    ensures
        forall|i: int, j: int|
            0 <= i < j < dedup_spec(s).len() ==> #[trigger] dedup_spec(s)[i].url != #[trigger] dedup_spec(s)[j].url,
        forall|u: Seq<char>| url_among(s, u, s.len() as int) <==> url_among(dedup_spec(s), u, dedup_spec(s).len() as int),
        dedup_spec(s).len() + duplicates_spec(s).len() == s.len(),
    decreases s.len(),
{
    if s.len() > 0 {
        let prev = s.drop_last();
        lemma_dedup_each_url_once(prev);
        let d = dedup_spec(prev);
        let last = s.last();
        assert forall|u: Seq<char>| url_among(s, u, s.len() - 1) <==> url_among(prev, u, prev.len() as int) by {
            if url_among(s, u, s.len() - 1) {
                let j = choose|j: int| 0 <= j < s.len() - 1 && #[trigger] s[j].url == u;
                assert(prev[j].url == u);
            }
            if url_among(prev, u, prev.len() as int) {
                let j = choose|j: int| 0 <= j < prev.len() && #[trigger] prev[j].url == u;
                assert(s[j].url == u);
            }
        }
        assert forall|u: Seq<char>| url_among(s, u, s.len() as int) <==> url_among(dedup_spec(s), u, dedup_spec(s).len() as int) by {
            if url_among(s, u, s.len() as int) {
                let j = choose|j: int| 0 <= j < s.len() && #[trigger] s[j].url == u;
                if j < s.len() - 1 {
                    assert(url_among(s, u, s.len() - 1));
                    assert(url_among(prev, u, prev.len() as int));
                    assert(url_among(d, u, d.len() as int));
                    let k = choose|k: int| 0 <= k < d.len() && #[trigger] d[k].url == u;
                    assert(dedup_spec(s)[k].url == u);
                } else if !url_among(s, last.url, s.len() - 1) {
                    assert(dedup_spec(s)[d.len() as int].url == u);
                } else {
                    assert(u == last.url);
                    assert(url_among(s, u, s.len() - 1));
                    assert(url_among(prev, u, prev.len() as int));
                    assert(url_among(d, u, d.len() as int));
                    let k = choose|k: int| 0 <= k < d.len() && #[trigger] d[k].url == u;
                    assert(dedup_spec(s)[k].url == u);
                }
            }
            if url_among(dedup_spec(s), u, dedup_spec(s).len() as int) {
                let k = choose|k: int| 0 <= k < dedup_spec(s).len() && #[trigger] dedup_spec(s)[k].url == u;
                if k < d.len() {
                    assert(d[k].url == u);
                    assert(url_among(d, u, d.len() as int));
                    assert(url_among(prev, u, prev.len() as int));
                    let j = choose|j: int| 0 <= j < prev.len() && #[trigger] prev[j].url == u;
                    assert(s[j].url == u);
                } else {
                    assert(s[s.len() - 1].url == u);
                }
            }
        }
        if !url_among(s, last.url, s.len() - 1) {
            assert forall|i: int, j: int| 0 <= i < j < dedup_spec(s).len() implies #[trigger] dedup_spec(s)[i].url
                != #[trigger] dedup_spec(s)[j].url by {
                if j == d.len() {
                    if d[i].url == last.url {
                        assert(url_among(d, last.url, d.len() as int));
                        assert(url_among(prev, last.url, prev.len() as int));
                    }
                } else {
                    assert(d[i].url != d[j].url);
                }
            }
        }
    }
}

/// The log entry for a duplicate task.
pub open spec fn duplicate_entry(url: Seq<char>) -> Seq<char> {
    "[SKIP] Duplicate URL: "@ + url
}

pub fn duplicate_line(url: &str) -> (r: String)
    ensures
        r@ == duplicate_entry(url@),
{
    String::from_str("[SKIP] Duplicate URL: ").concat(url)
}

/// Keeps the first task of each URL (exact, case-sensitive match) and gives
/// the URLs of the others.
pub fn dedup_tasks(tasks: &Vec<DownloadTask>) -> (r: (Vec<DownloadTask>, Vec<String>))
    ensures
        task_views(r.0@) == dedup_spec(task_views(tasks@)),
        views(r.1@) == duplicates_spec(task_views(tasks@)),
{
    let ghost s = task_views(tasks@);
    let mut kept: Vec<DownloadTask> = Vec::new();
    let mut dups: Vec<String> = Vec::new();
    let mut i: usize = 0;
    assert(task_views(kept@) =~= Seq::<TaskView>::empty());
    assert(views(dups@) =~= Seq::<Seq<char>>::empty());
    assert(s.subrange(0, 0) =~= Seq::<TaskView>::empty());
    while i < tasks.len()
        invariant
            s == task_views(tasks@),
            s.len() == tasks@.len(),
            i <= tasks@.len(),
            task_views(kept@) == dedup_spec(s.subrange(0, i as int)),
            views(dups@) == duplicates_spec(s.subrange(0, i as int)),
            forall|u: Seq<char>| url_among(s, u, i as int) <==> url_among(task_views(kept@), u, kept@.len() as int),
        decreases tasks@.len() - i,
    {
        let ghost prefix = s.subrange(0, i as int + 1);
        assert(prefix.drop_last() =~= s.subrange(0, i as int));
        assert(prefix.last() == tasks@[i as int]@);
        let ghost u = tasks@[i as int].url@;
        assert(url_among(prefix, u, i as int) == url_among(s, u, i as int)) by {
            if url_among(prefix, u, i as int) {
                let j = choose|j: int| 0 <= j < i && #[trigger] prefix[j].url == u;
                assert(s[j].url == u);
            }
            if url_among(s, u, i as int) {
                let j = choose|j: int| 0 <= j < i && #[trigger] s[j].url == u;
                assert(prefix[j].url == u);
            }
        }
        let mut found = false;
        let mut k: usize = 0;
        while k < kept.len() && !found
            invariant
                k <= kept@.len(),
                found ==> url_among(task_views(kept@), u, kept@.len() as int),
                !found ==> forall|m: int| 0 <= m < k ==> kept@[m].url@ != u,
                u == tasks@[i as int].url@,
                i < tasks@.len(),
            decreases kept@.len() - k,
        {
            if kept[k].url == tasks[i].url {
                found = true;
                assert(task_views(kept@)[k as int].url == u);
            }
            k = k + 1;
        }
        proof {
            if !found {
                assert forall|m: int| 0 <= m < kept@.len() implies #[trigger] task_views(kept@)[m].url != u by {
                    assert(task_views(kept@)[m] == kept@[m]@);
                }
            }
        }
        let ghost old_k = kept@;
        let ghost old_d = dups@;
        assert(forall|w: Seq<char>| url_among(s, w, i as int) <==> url_among(task_views(old_k), w, old_k.len() as int));
        if found {
            dups.push(tasks[i].url.clone());
            assert(views(dups@) =~= views(old_d).push(u));
        } else {
            kept.push(tasks[i].copy());
            assert(task_views(kept@) =~= task_views(old_k).push(tasks@[i as int]@));
        }
        assert forall|w: Seq<char>| url_among(s, w, i as int + 1) <==> url_among(task_views(kept@), w, kept@.len() as int) by {
            if url_among(s, w, i as int + 1) {
                let j = choose|j: int| 0 <= j < i + 1 && #[trigger] s[j].url == w;
                if j < i {
                    assert(url_among(s, w, i as int));
                    let m = choose|m: int| 0 <= m < old_k.len() && #[trigger] task_views(old_k)[m].url == w;
                    assert(task_views(kept@)[m].url == w);
                } else if !found {
                    assert(task_views(kept@)[old_k.len() as int].url == w);
                }
            }
            if url_among(task_views(kept@), w, kept@.len() as int) {
                let m = choose|m: int| 0 <= m < kept@.len() && #[trigger] task_views(kept@)[m].url == w;
                if m < old_k.len() {
                    assert(task_views(old_k)[m].url == w);
                    assert(url_among(task_views(old_k), w, old_k.len() as int));
                    assert(url_among(s, w, i as int));
                    let j = choose|j: int| 0 <= j < i && #[trigger] s[j].url == w;
                    assert(s[j].url == w);
                } else {
                    assert(s[i as int].url == w);
                }
            }
        }
        i = i + 1;
    }
    assert(s.subrange(0, i as int) =~= s);
    (kept, dups)
}

} // verus!
