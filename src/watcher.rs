use vstd::prelude::*;
use vstd::string::StringSliceAdditionalSpecFns;

use crate::config::CountFileConfig;
use crate::controller::string_of;

verus! {

/// The mode bound to `path` by the first `n` bindings: the last binding of that path wins.
pub open spec fn binding_within(
    files: Seq<Seq<char>>,
    modes: Seq<Seq<char>>,
    path: Seq<char>,
    n: int,
) -> Option<Seq<char>>
    decreases n,
{
    if n <= 0 {
        None
    } else if files[n - 1] == path {
        Some(modes[n - 1])
    } else {
        binding_within(files, modes, path, n - 1)
    }
}

pub open spec fn config_files(configs: Seq<CountFileConfig>) -> Seq<Seq<char>> {
    configs.map_values(|c: CountFileConfig| c.file@)
}

pub open spec fn config_modes(configs: Seq<CountFileConfig>) -> Seq<Seq<char>> {
    configs.map_values(|c: CountFileConfig| c.mode@)
}

/// The mode that `configs` bind to `path`, if any.
pub open spec fn configured_mode(configs: Seq<CountFileConfig>, path: Seq<char>) -> Option<Seq<char>> {
    binding_within(config_files(configs), config_modes(configs), path, configs.len() as int)
}

pub open spec fn texts(s: Seq<String>) -> Seq<Seq<char>> {
    s.map_values(|x: String| x@)
}

/// Some event of the batch names `path`.
pub open spec fn batch_names(batch: Seq<Vec<String>>, path: Seq<char>) -> bool {
    exists|i: int, j: int| 0 <= i < batch.len() && 0 <= j < batch[i]@.len() && batch[i]@[j]@ == path
}

proof fn lemma_binding_some(files: Seq<Seq<char>>, modes: Seq<Seq<char>>, path: Seq<char>, n: int)
    requires
        n <= files.len(),
    ensures
        binding_within(files, modes, path, n) is Some <==> exists|k: int| 0 <= k < n && files[k] == path,
    decreases n,
{
    if n > 0 {
        lemma_binding_some(files, modes, path, n - 1);
        if files[n - 1] != path && binding_within(files, modes, path, n) is None {
            assert forall|k: int| 0 <= k < n implies files[k] != path by {
                if k < n - 1 {
                }
            }
        }
    }
}

proof fn lemma_binding_prefix(
    files: Seq<Seq<char>>,
    modes: Seq<Seq<char>>,
    more_files: Seq<Seq<char>>,
    more_modes: Seq<Seq<char>>,
    path: Seq<char>,
    n: int,
)
    requires
        n <= files.len(),
        n <= modes.len(),
        n <= more_files.len(),
        n <= more_modes.len(),
        forall|k: int| 0 <= k < n ==> files[k] == more_files[k] && modes[k] == more_modes[k],
    ensures
        binding_within(files, modes, path, n) == binding_within(more_files, more_modes, path, n),
    decreases n,
{
    if n > 0 {
        lemma_binding_prefix(files, modes, more_files, more_modes, path, n - 1);
    }
}

proof fn lemma_binding_update(
    files: Seq<Seq<char>>,
    modes: Seq<Seq<char>>,
    j: int,
    mode: Seq<char>,
    path: Seq<char>,
    n: int,
)
    requires
        0 <= j < n <= files.len(),
        n <= modes.len(),
        files.no_duplicates(),
    ensures
        binding_within(files, modes.update(j, mode), path, n) == if path == files[j] {
            Some(mode)
        } else {
            binding_within(files, modes, path, n)
        },
    decreases n,
{
    if n - 1 == j {
        if path == files[j] {
        } else {
            lemma_binding_prefix(files, modes, files, modes.update(j, mode), path, n - 1);
        }
    } else {
        lemma_binding_update(files, modes, j, mode, path, n - 1);
    }
}

/// The parent directory of a path, if it has one.
pub uninterp spec fn parent_of(path: Seq<char>) -> Option<Seq<char>>;

/// Relies on `std::path::Path::parent`: the path without its last component, or `None` for a
/// root or an empty path. The result depends on the text alone.
#[verifier::external_body]
fn parent(path: &str) -> (r: Option<String>)
    ensures
        string_of(r) == parent_of(path@),
{
    match std::path::Path::new(path).parent() {
        Some(p) => match p.to_str() {
            Some(t) => Some(t.to_owned()),
            None => None,
        },
        None => None,
    }
}

/// The directory watched for `path`: its parent, or the root when it has none.
pub open spec fn watch_dir_of(path: Seq<char>) -> Seq<char> {
    match parent_of(path) {
        Some(d) => d,
        None => seq!['/'],
    }
}

/// Count files and the modes they switch. Each file is bound once.
pub struct CountWatcher {
    files: Vec<String>,
    modes: Vec<String>,
}

/// The mail-count files are watched the same way as any other count file.
pub type EmailFileWatcher = CountWatcher;

impl CountWatcher {
    pub closed spec fn files_view(&self) -> Seq<Seq<char>> {
        texts(self.files@)
    }

    pub closed spec fn modes_view(&self) -> Seq<Seq<char>> {
        texts(self.modes@)
    }

    /// The mode bound to `path`, if it is watched.
    pub open spec fn mode_for(&self, path: Seq<char>) -> Option<Seq<char>> {
        binding_within(self.files_view(), self.modes_view(), path, self.files_view().len() as int)
    }

    /// One mode per file, and no file twice.
    pub closed spec fn wf(&self) -> bool {
        &&& self.files@.len() == self.modes@.len()
        &&& self.files_view().no_duplicates()
    }

    /// Binds each configured file to its mode; a file configured twice keeps the later mode.
    pub fn new(configs: Vec<CountFileConfig>) -> (r: Self)
        ensures
            r.wf(),
            forall|path: Seq<char>| #[trigger] r.mode_for(path) == configured_mode(configs@, path),
    {
        let mut w = CountWatcher { files: Vec::new(), modes: Vec::new() };
        let mut i: usize = 0;
        while i < configs.len()
            invariant
                i <= configs@.len(),
                w.wf(),
                forall|path: Seq<char>| #[trigger]
                    w.mode_for(path) == binding_within(
                        config_files(configs@),
                        config_modes(configs@),
                        path,
                        i as int,
                    ),
            decreases configs@.len() - i,
        {
            let file = configs[i].file.clone();
            let mode = configs[i].mode.clone();
            let ghost old_files = w.files_view();
            let ghost old_modes = w.modes_view();
            let ghost old_w = w;
            match w.position(&file) {
                Some(j) => {
                    w.modes.set(j, mode);
                    proof {
                        assert(w.modes_view() =~= old_modes.update(j as int, mode@));
                        assert(w.files_view() == old_files);
                        assert forall|path: Seq<char>| #[trigger]
                            w.mode_for(path) == if path == file@ {
                                Some(mode@)
                            } else {
                                old_w.mode_for(path)
                            } by {
                            lemma_binding_update(
                                old_files,
                                old_modes,
                                j as int,
                                mode@,
                                path,
                                old_files.len() as int,
                            );
                        }
                    }
                },
                None => {
                    w.files.push(file);
                    w.modes.push(mode);
                    proof {
                        assert(w.files_view() =~= old_files.push(file@));
                        assert(w.modes_view() =~= old_modes.push(mode@));
                        assert forall|path: Seq<char>| #[trigger]
                            w.mode_for(path) == if path == file@ {
                                Some(mode@)
                            } else {
                                old_w.mode_for(path)
                            } by {
                            lemma_binding_prefix(
                                old_files,
                                old_modes,
                                w.files_view(),
                                w.modes_view(),
                                path,
                                old_files.len() as int,
                            );
                        }
                        assert(w.files_view().no_duplicates()) by {
                            assert(forall|k: int| 0 <= k < old_files.len() ==> old_files[k] != file@);
                        }
                    }
                },
            }
            proof {
                assert forall|path: Seq<char>| #[trigger]
                    w.mode_for(path) == binding_within(
                        config_files(configs@),
                        config_modes(configs@),
                        path,
                        i + 1,
                    ) by {
                    assert(config_files(configs@)[i as int] == file@);
                    assert(config_modes(configs@)[i as int] == mode@);
                }
            }
            i = i + 1;
        }
        w
    }

    /// The mode bound to `path`, if it is watched.
    pub fn mode_of(&self, path: &String) -> (r: Option<String>)
        requires
            self.wf(),
        ensures
            r matches Some(m) ==> self.mode_for(path@) == Some(m@),
            r is None ==> self.mode_for(path@) is None,
    {
        match self.position(path) {
            Some(j) => Some(self.modes[j].clone()),
            None => None,
        }
    }

    /// Every watched file once: the paths to evaluate before the first change arrives.
    pub fn watched_paths(&self) -> (r: Vec<String>)
        requires
            self.wf(),
        ensures
            texts(r@).no_duplicates(),
            forall|path: Seq<char>| #[trigger] texts(r@).contains(path) <==> self.mode_for(path) is Some,
    {
        proof {
            assert forall|path: Seq<char>| #[trigger] self.files_view().contains(path) <==> self.mode_for(path) is Some by {
                lemma_binding_some(self.files_view(), self.modes_view(), path, self.files_view().len() as int);
            }
        }
        let r = self.files.clone();
        assert(texts(r@) == self.files_view());
        r
    }

    /// The watched paths that a batch of change events names, each once; paths that are not
    /// watched are left out. However many events of the batch name a path, it is evaluated
    /// once.
    pub fn touched_paths(&self, batch: &Vec<Vec<String>>) -> (r: Vec<String>)
        requires
            self.wf(),
        ensures
            texts(r@).no_duplicates(),
            forall|path: Seq<char>| #[trigger] texts(r@).contains(path) <==> (
                self.mode_for(path) is Some && batch_names(batch@, path)),
    {
        let mut r: Vec<String> = Vec::new();
        let mut i: usize = 0;
        while i < batch.len()
            invariant
                self.wf(),
                i <= batch@.len(),
                texts(r@).no_duplicates(),
                forall|path: Seq<char>| #[trigger] texts(r@).contains(path) <==> (
                    self.mode_for(path) is Some && exists|a: int, b: int|
                        0 <= a < i && 0 <= b < batch@[a]@.len() && batch@[a]@[b]@ == path),
            decreases batch@.len() - i,
        {
            let event = &batch[i];
            let mut j: usize = 0;
            while j < event.len()
                invariant
                    self.wf(),
                    i < batch@.len(),
                    event == batch@[i as int],
                    j <= event@.len(),
                    texts(r@).no_duplicates(),
                    forall|path: Seq<char>| #[trigger] texts(r@).contains(path) <==> (
                        self.mode_for(path) is Some && (exists|a: int, b: int|
                            0 <= a < i && 0 <= b < batch@[a]@.len() && batch@[a]@[b]@ == path
                        || exists|b: int| 0 <= b < j && event@[b]@ == path)),
                decreases event@.len() - j,
            {
                let path = &event[j];
                let ghost before = r@;
                if self.position(path).is_some() && !contains_text(&r, path) {
                    r.push(path.clone());
                    proof {
                        assert(texts(r@) =~= texts(before).push(path@));
                    }
                }
                proof {
                    assert forall|q: Seq<char>| #[trigger] texts(r@).contains(q) <==> (
                        self.mode_for(q) is Some && (exists|a: int, b: int|
                            0 <= a < i && 0 <= b < batch@[a]@.len() && batch@[a]@[b]@ == q
                        || exists|b: int| 0 <= b < j + 1 && event@[b]@ == q)) by {
                        if q == path@ {
                            if self.mode_for(q) is Some {
                                assert(texts(r@).contains(q)) by {
                                    if r@.len() > before.len() {
                                        assert(texts(r@)[before.len() as int] == q);
                                    }
                                }
                            }
                        } else {
                            if exists|b: int| 0 <= b < j + 1 && event@[b]@ == q {
                                let b = choose|b: int| 0 <= b < j + 1 && event@[b]@ == q;
                                assert(b < j);
                            }
                            if r@.len() > before.len() {
                                if texts(r@).contains(q) {
                                    let k = choose|k: int| 0 <= k < texts(r@).len() && texts(r@)[k] == q;
                                    assert(k < before.len());
                                    assert(texts(before).contains(q));
                                }
                                if texts(before).contains(q) {
                                    let k = choose|k: int| 0 <= k < texts(before).len() && texts(before)[k] == q;
                                    assert(texts(r@)[k] == q);
                                }
                            }
                        }
                    }
                }
                j = j + 1;
            }
            proof {
                assert forall|q: Seq<char>| #[trigger] texts(r@).contains(q) <==> (
                    self.mode_for(q) is Some && exists|a: int, b: int|
                        0 <= a < i + 1 && 0 <= b < batch@[a]@.len() && batch@[a]@[b]@ == q) by {
                    if exists|a: int, b: int|
                        0 <= a < i + 1 && 0 <= b < batch@[a]@.len() && batch@[a]@[b]@ == q {
                        let (a, b) = choose|a: int, b: int|
                            0 <= a < i + 1 && 0 <= b < batch@[a]@.len() && batch@[a]@[b]@ == q;
                        if a == i {
                            assert(event@[b]@ == q);
                        }
                    }
                }
            }
            i = i + 1;
        }
        r
    }

    /// The directories to watch, each once: the parent of every watched file (the root for a
    /// file without one). Watching the directory rather than the file keeps working when the file
    /// is deleted and created again.
    pub fn watch_dirs(&self) -> (r: Vec<String>)
        requires
            self.wf(),
        ensures
            texts(r@).no_duplicates(),
            forall|d: Seq<char>| #[trigger] texts(r@).contains(d) <==> exists|path: Seq<char>|
                self.mode_for(path) is Some && watch_dir_of(path) == d,
    {
        proof {
            assert forall|path: Seq<char>| #[trigger] self.files_view().contains(path) <==> self.mode_for(path) is Some by {
                lemma_binding_some(self.files_view(), self.modes_view(), path, self.files_view().len() as int);
            }
        }
        let mut r: Vec<String> = Vec::new();
        let mut i: usize = 0;
        while i < self.files.len()
            invariant
                self.wf(),
                i <= self.files@.len(),
                texts(r@).no_duplicates(),
                forall|path: Seq<char>| #[trigger] self.files_view().contains(path) <==> self.mode_for(path) is Some,
                forall|d: Seq<char>| #[trigger] texts(r@).contains(d) <==> exists|k: int|
                    0 <= k < i && watch_dir_of(self.files_view()[k]) == d,
            decreases self.files@.len() - i,
        {
            let dir = match parent(self.files[i].as_str()) {
                Some(p) => p,
                None => "/".to_owned(),
            };
            proof {
                reveal_strlit("/");
                assert(self.files_view()[i as int] == self.files@[i as int]@);
            }
            assert(dir@ == watch_dir_of(self.files_view()[i as int]));
            let ghost before = r@;
            if !contains_text(&r, &dir) {
                r.push(dir);
                assert(texts(r@) =~= texts(before).push(dir@));
            }
            proof {
                assert forall|d: Seq<char>| #[trigger] texts(r@).contains(d) <==> exists|k: int|
                    0 <= k < i + 1 && watch_dir_of(self.files_view()[k]) == d by {
                    if d == dir@ {
                        if r@.len() > before.len() {
                            assert(texts(r@)[before.len() as int] == d);
                        }
                    } else {
                        if exists|k: int| 0 <= k < i + 1 && watch_dir_of(self.files_view()[k]) == d {
                            let k = choose|k: int| 0 <= k < i + 1 && watch_dir_of(self.files_view()[k]) == d;
                            assert(k < i);
                        }
                        if r@.len() > before.len() {
                            if texts(r@).contains(d) {
                                let k = choose|k: int| 0 <= k < texts(r@).len() && texts(r@)[k] == d;
                                assert(k < before.len());
                                assert(texts(before)[k] == d);
                            }
                            if texts(before).contains(d) {
                                let k = choose|k: int| 0 <= k < texts(before).len() && texts(before)[k] == d;
                                assert(texts(r@)[k] == d);
                            }
                        }
                    }
                }
            }
            i = i + 1;
        }
        proof {
            assert forall|d: Seq<char>| #[trigger] texts(r@).contains(d) <==> exists|path: Seq<char>|
                self.mode_for(path) is Some && watch_dir_of(path) == d by {
                if texts(r@).contains(d) {
                    let k = choose|k: int| 0 <= k < self.files@.len() && watch_dir_of(self.files_view()[k]) == d;
                    assert(self.files_view().contains(self.files_view()[k]));
                }
                if exists|path: Seq<char>| self.mode_for(path) is Some && watch_dir_of(path) == d {
                    let path = choose|path: Seq<char>| self.mode_for(path) is Some && watch_dir_of(path) == d;
                    assert(self.files_view().contains(path));
                    let k = choose|k: int| 0 <= k < self.files_view().len() && self.files_view()[k] == path;
                    assert(watch_dir_of(self.files_view()[k]) == d);
                }
            }
        }
        r
    }

    /// Where `path` stands among the watched files.
    fn position(&self, path: &String) -> (r: Option<usize>)
        requires
            self.wf(),
        ensures
            r matches Some(j) ==> j < self.files@.len() && self.files_view()[j as int] == path@
                && self.mode_for(path@) == Some(self.modes_view()[j as int]),
            r is None ==> self.mode_for(path@) is None && !self.files_view().contains(path@),
    {
        let mut i: usize = self.files.len();
        while i > 0
            invariant
                self.wf(),
                i <= self.files@.len(),
                self.mode_for(path@) == binding_within(
                    self.files_view(),
                    self.modes_view(),
                    path@,
                    i as int,
                ),
                forall|k: int| i <= k < self.files@.len() ==> self.files_view()[k] != path@,
            decreases i,
        {
            if self.files[i - 1] == *path {
                return Some(i - 1);
            }
            i = i - 1;
        }
        proof {
            lemma_binding_some(self.files_view(), self.modes_view(), path@, self.files_view().len() as int);
        }
        None
    }
}

/// Whether `path` is one of `items`.
fn contains_text(items: &Vec<String>, path: &String) -> (r: bool)
    ensures
        r == texts(items@).contains(path@),
{
    let mut k: usize = 0;
    while k < items.len()
        invariant
            k <= items@.len(),
            forall|m: int| 0 <= m < k ==> items@[m]@ != path@,
        decreases items@.len() - k,
    {
        if items[k] == *path {
            assert(texts(items@)[k as int] == path@);
            return true;
        }
        k = k + 1;
    }
    proof {
        if texts(items@).contains(path@) {
            let m = choose|m: int| 0 <= m < texts(items@).len() && texts(items@)[m] == path@;
            assert(items@[m]@ == path@);
        }
    }
    false
}

/// The value of a run of decimal digits.
pub open spec fn digits_value(d: Seq<u8>) -> int
    decreases d.len(),
{
    if d.len() == 0 {
        0
    } else {
        digits_value(d.drop_last()) * 10 + (d.last() - 48)
    }
}

pub open spec fn all_digits(d: Seq<u8>) -> bool {
    forall|i: int| 0 <= i < d.len() ==> 48 <= #[trigger] d[i] <= 57
}

/// The digits of an unsigned number: an optional leading `+` is not one of them.
pub open spec fn unsigned_digits(s: Seq<u8>) -> Seq<u8> {
    if s.len() > 0 && s[0] == 43 {
        s.drop_first()
    } else {
        s
    }
}

/// The count that a trimmed count file holds: its decimal value when it is a number that fits
/// in a `u64`, and zero for anything else.
pub open spec fn count_value(s: Seq<u8>) -> int {
    let d = unsigned_digits(s);
    if d.len() > 0 && all_digits(d) && digits_value(d) <= u64::MAX {
        digits_value(d)
    } else {
        0
    }
}

/// The bytes of a text without its leading and trailing white space.
pub uninterp spec fn trim_of(s: Seq<u8>) -> Seq<u8>;

/// Relies on `str::trim`: the text with leading and trailing Unicode white space removed, which
/// depends on the text alone.
#[verifier::external_body]
fn trim(s: &str) -> (r: &str)
    ensures
        r.spec_bytes() == trim_of(s.spec_bytes()),
{
    s.trim()
}

proof fn lemma_digits_grow(d: Seq<u8>, k: int)
    requires
        0 <= k <= d.len(),
        all_digits(d),
    ensures
        digits_value(d.subrange(0, k)) <= digits_value(d),
        0 <= digits_value(d.subrange(0, k)),
    decreases d.len() - k,
{
    if k < d.len() {
        lemma_digits_grow(d, k + 1);
        let longer = d.subrange(0, k + 1);
        assert(longer.drop_last() =~= d.subrange(0, k));
        assert(longer.last() == d[k]);
    } else {
        assert(d.subrange(0, k) =~= d);
        lemma_digits_nonneg(d);
    }
}

proof fn lemma_digits_nonneg(d: Seq<u8>)
    requires
        all_digits(d),
    ensures
        0 <= digits_value(d),
    decreases d.len(),
{
    if d.len() > 0 {
        assert(all_digits(d.drop_last())) by {
            assert forall|i: int| 0 <= i < d.drop_last().len() implies 48 <= #[trigger] d.drop_last()[i] <= 57 by {
                assert(d.drop_last()[i] == d[i]);
            }
        }
        lemma_digits_nonneg(d.drop_last());
    }
}

/// The count in a trimmed count file: its decimal value, or zero when it is not a number that
/// fits in a `u64`.
pub fn parse_count(text: &str) -> (r: u64)
    ensures
        r == count_value(text.spec_bytes()),
{
    let bytes = text.as_bytes();
    let n = bytes.len();
    let start: usize = if n > 0 && bytes[0] == 43u8 {
        1
    } else {
        0
    };
    let ghost d = unsigned_digits(bytes@);
    assert(d =~= bytes@.subrange(start as int, n as int));
    if start == n {
        return 0;
    }
    let mut value: u64 = 0;
    let mut i: usize = start;
    while i < n
        invariant
            start <= i <= n,
            n == bytes@.len(),
            bytes@ == text.spec_bytes(),
            d == unsigned_digits(bytes@),
            d == bytes@.subrange(start as int, n as int),
            all_digits(d.subrange(0, i - start)),
            value == digits_value(d.subrange(0, i - start)),
        decreases n - i,
    {
        let c = bytes[i];
        let ghost prefix = d.subrange(0, i - start);
        let ghost longer = d.subrange(0, i + 1 - start);
        assert(longer.drop_last() =~= prefix);
        assert(longer.last() == c);
        if c < 48u8 || c > 57u8 {
            assert(!all_digits(d)) by {
                assert(d[i - start] == c);
            }
            assert(unsigned_digits(text.spec_bytes()) == d);
            assert(count_value(text.spec_bytes()) == 0);
            return 0;
        }
        let digit = (c - 48u8) as u64;
        if value > (u64::MAX - digit) / 10 {
            proof {
                assert(all_digits(longer)) by {
                    assert forall|k: int| 0 <= k < longer.len() implies 48 <= #[trigger] longer[k] <= 57 by {
                        if k < prefix.len() {
                            assert(longer[k] == prefix[k]);
                        }
                    }
                }
                assert(digits_value(longer) > u64::MAX) by (nonlinear_arith)
                    requires
                        digits_value(longer) == value * 10 + digit,
                        value > (u64::MAX - digit) / 10,
                        digit <= 9,
                ;
                if all_digits(d) {
                    lemma_digits_grow(d, i + 1 - start);
                }
                assert(unsigned_digits(text.spec_bytes()) == d);
                assert(count_value(text.spec_bytes()) == 0);
            }
            return 0;
        }
        value = value * 10 + digit;
        proof {
            assert forall|k: int| 0 <= k < longer.len() implies 48 <= #[trigger] longer[k] <= 57 by {
                if k < prefix.len() {
                    assert(longer[k] == prefix[k]);
                }
            }
        }
        i = i + 1;
    }
    assert(d.subrange(0, n - start) =~= d);
    value
}

/// Whether a count file switches its mode on: only when it exists and its trimmed text is a
/// positive count. A missing file, empty text or text that is not a count switches it off.
pub fn trigger_state(text: Option<&str>) -> (r: bool)
    ensures
        r == (text matches Some(t) && count_value(trim_of(t.spec_bytes())) > 0),
{
    match text {
        Some(t) => parse_count(trim(t)) > 0,
        None => false,
    }
}

/// However many change events of a batch name a watched path, and nothing else, that path is
/// evaluated exactly once.
pub proof fn lemma_burst_evaluated_once(
    w: CountWatcher,
    batch: Seq<Vec<String>>,
    path: Seq<char>,
    touched: Seq<Seq<char>>,
)
    requires
        touched.no_duplicates(),
        forall|q: Seq<char>| #[trigger] touched.contains(q) <==> (w.mode_for(q) is Some
            && batch_names(batch, q)),
        w.mode_for(path) is Some,
        batch.len() > 0,
        batch[0]@.len() > 0,
        forall|i: int, j: int| 0 <= i < batch.len() && 0 <= j < batch[i]@.len() ==> batch[i]@[j]@ == path,
    ensures
        touched == seq![path],
{
    assert(batch[0]@[0]@ == path);
    assert(touched.contains(path));
    assert forall|k: int| 0 <= k < touched.len() implies touched[k] == path by {
        assert(touched.contains(touched[k]));
    }
    if touched.len() > 1 {
        assert(touched[0] == touched[1]);
    }
    assert(touched =~= seq![path]);
}

} // verus!
