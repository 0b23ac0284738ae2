//! The application catalog: registry entries first, then files found under
//! the scanned roots, each normalised, filtered and de-duplicated by
//! case-insensitive path and name.
use vstd::prelude::*;
use std::sync::Arc;
use crate::names::{clean_app_name, clean_name, is_noise_lower, lemma_clean_idempotent, noise_rule};
use crate::text::{
    chars_eq, chars_of, contains, contains_exec, lower_chars, lower_of, lowercase, string_from_chars,
    trim, trim_exec,
};

verus! {

/// The kind of a catalog entry.
#[derive(PartialEq, Eq, Structural, Clone, Copy, Debug)]
pub enum Category {
    Launcher,
    Game,
}

impl Category {
    /// The tag shown to the user.
    pub fn as_str(&self) -> (r: &'static str)
        ensures
            *self == Category::Launcher ==> r@ == "launcher"@,
            *self == Category::Game ==> r@ == "game"@,
    {
        match self {
            Category::Launcher => "launcher",
            Category::Game => "game",
        }
    }
}

/// One launch target of the catalog.
#[derive(Clone, Debug)]
pub struct AppEntry {
    pub name: String,
    pub path: String,
    pub icon: Option<String>,
    pub category: Option<Category>,
}

/// The catalog that the host keeps once it is built.
pub struct LauncherState {
    pub _apps: Arc<Vec<AppEntry>>,
}

impl LauncherState {
    /// Holds `apps` for sharing.
    pub fn new(apps: Vec<AppEntry>) -> (r: Self)
        ensures
            *r._apps == apps,
    {
        LauncherState { _apps: Arc::new(apps) }
    }
}

/// The value of an `AppEntry`.
pub struct AppView {
    pub name: Seq<char>,
    pub path: Seq<char>,
    pub icon: Option<Seq<char>>,
    pub category: Option<Category>,
}

impl View for AppEntry {
    type V = AppView;

    open spec fn view(&self) -> AppView {
        AppView {
            name: self.name@,
            path: self.path@,
            icon: match self.icon {
                Some(i) => Some(i@),
                None => None,
            },
            category: self.category,
        }
    }
}

/// A file met while walking a scanned root: its full path, its name without
/// extension, its extension and its size in bytes.
#[derive(Clone, Debug)]
pub struct WalkedFile {
    pub path: String,
    pub stem: String,
    pub ext: String,
    pub size: u64,
}

pub struct FileView {
    pub path: Seq<char>,
    pub stem: Seq<char>,
    pub ext: Seq<char>,
    pub size: u64,
}

impl View for WalkedFile {
    type V = FileView;

    open spec fn view(&self) -> FileView {
        FileView { path: self.path@, stem: self.stem@, ext: self.ext@, size: self.size }
    }
}

/// A scanned root directory and the files found under it, in walk order.
#[derive(Clone, Debug)]
pub struct RootListing {
    pub root: String,
    pub files: Vec<WalkedFile>,
}

/// How deep below a scanned root the file walk descends.
pub const WALK_DEPTH: usize = 3;

/// Executables smaller than this are taken for utilities.
pub const MIN_EXE_SIZE: u64 = 3_500_000;

pub open spec fn views(v: Seq<AppEntry>) -> Seq<AppView> {
    v.map_values(|e: AppEntry| e@)
}

/// No entry of `cat` has the lower-cased path `pl` or the lower-cased name `nl`.
pub open spec fn fresh(cat: Seq<AppView>, pl: Seq<char>, nl: Seq<char>) -> bool {
    forall|i: int|
        0 <= i < cat.len() ==> lower_of(#[trigger] cat[i].path) != pl && lower_of(cat[i].name)
            != nl
}

/// No two entries share a case-insensitive path or a case-insensitive name.
pub open spec fn dedup(cat: Seq<AppView>) -> bool {
    forall|i: int, j: int|
        0 <= i < j < cat.len() ==> lower_of(#[trigger] cat[i].path) != lower_of(
            #[trigger] cat[j].path,
        ) && lower_of(cat[i].name) != lower_of(cat[j].name)
}

/// A root whose lower-cased path names a game library.
pub open spec fn game_path_rule(l: Seq<char>) -> bool {
    contains(l, "games"@) || contains(l, "steamapps"@) || contains(l, "xbox"@)
}

/// A lower-cased name of a game store or launcher.
pub open spec fn launcher_rule(l: Seq<char>) -> bool {
    contains(l, "launcher"@) || l == "steam"@ || l == "epic games"@ || l == "riot client"@
        || contains(l, "client"@)
}

/// The category of a file entry: a launcher by name first, else a game by
/// its root or its own path.
pub open spec fn category_for(nl: Seq<char>, pl: Seq<char>, game_root: bool) -> Option<
    Category,
> {
    if launcher_rule(nl) {
        Some(Category::Launcher)
    } else if game_root || game_path_rule(pl) {
        Some(Category::Game)
    } else {
        None
    }
}

/// Whether a small executable is turned away: under the minimum size and
/// without the one exception token in its lower-cased name.
pub open spec fn below_size_gate(f: FileView, nl: Seq<char>) -> bool {
    f.ext == "exe"@ && f.size < MIN_EXE_SIZE && !contains(nl, "midnight"@)
}

/// The catalog after offering it one registry entry.
pub open spec fn add_registry_spec(cat: Seq<AppView>, raw: AppView) -> Seq<AppView> {
    let name = clean_name(raw.name);
    if noise_rule(lower_of(name)) || !fresh(cat, lower_of(raw.path), lower_of(name)) {
        cat
    } else {
        cat.push(AppView { name: name, ..raw })
    }
}

/// The catalog after offering it one walked file.
pub open spec fn add_file_spec(cat: Seq<AppView>, game_root: bool, f: FileView) -> Seq<AppView> {
    let name = clean_name(f.stem);
    let nl = lower_of(name);
    let pl = lower_of(f.path);
    if !(f.ext == "lnk"@ || f.ext == "exe"@) || noise_rule(nl) || below_size_gate(f, nl) || !fresh(
        cat,
        pl,
        nl,
    ) {
        cat
    } else {
        cat.push(
            AppView { name: name, path: f.path, icon: None, category: category_for(nl, pl, game_root) },
        )
    }
}

/// The catalog after offering it registry entries in order.
pub open spec fn registry_pass(cat: Seq<AppView>, raws: Seq<AppView>) -> Seq<AppView>
    decreases raws.len(),
{
    if raws.len() == 0 {
        cat
    } else {
        add_registry_spec(registry_pass(cat, raws.drop_last()), raws.last())
    }
}

/// The catalog after offering it the files of one root in order.
pub open spec fn files_pass(cat: Seq<AppView>, game_root: bool, files: Seq<FileView>) -> Seq<
    AppView,
>
    decreases files.len(),
{
    if files.len() == 0 {
        cat
    } else {
        add_file_spec(files_pass(cat, game_root, files.drop_last()), game_root, files.last())
    }
}

pub struct RootView {
    pub root: Seq<char>,
    pub files: Seq<FileView>,
}

impl View for RootListing {
    type V = RootView;

    open spec fn view(&self) -> RootView {
        RootView { root: self.root@, files: self.files@.map_values(|f: WalkedFile| f@) }
    }
}

/// The catalog after offering it the files of each root, root by root.
pub open spec fn roots_pass(cat: Seq<AppView>, roots: Seq<RootView>) -> Seq<AppView>
    decreases roots.len(),
{
    if roots.len() == 0 {
        cat
    } else {
        let r = roots.last();
        files_pass(roots_pass(cat, roots.drop_last()), game_path_rule(lower_of(r.root)), r.files)
    }
}

/// The whole catalog built from registry entries and walked roots.
pub open spec fn catalog_spec(raws: Seq<AppView>, roots: Seq<RootView>) -> Seq<AppView> {
    roots_pass(registry_pass(Seq::empty(), raws), roots)
}

/// Whether a root directory is a game library: its lower-cased path holds
/// `games`, `steamapps` or `xbox`.
pub fn is_game_library(root: &str) -> (r: bool)
    ensures
        r == game_path_rule(lower_of(root@)),
{
    let l = lower_chars(root);
    game_path_lower(&l)
}

fn game_path_lower(l: &Vec<char>) -> (r: bool)
    ensures
        r == game_path_rule(l@),
{
    contains_exec(l, &chars_of("games")) || contains_exec(l, &chars_of("steamapps"))
        || contains_exec(l, &chars_of("xbox"))
}

fn launcher_lower(l: &Vec<char>) -> (r: bool)
    ensures
        r == launcher_rule(l@),
{
    contains_exec(l, &chars_of("launcher")) || chars_eq(l, &chars_of("steam")) || chars_eq(
        l,
        &chars_of("epic games"),
    ) || chars_eq(l, &chars_of("riot client")) || contains_exec(l, &chars_of("client"))
}

fn clone_string(s: &String) -> (r: String)
    ensures
        r@ == s@,
{
    s.clone()
}

/// Whether `v` holds a string equal to `s`.
fn seen_in(v: &Vec<String>, s: &String) -> (r: bool)
    ensures
        r == exists|i: int| 0 <= i < v@.len() && (#[trigger] v@[i])@ == s@,
{
    let mut i: usize = 0;
    while i < v.len()
        invariant
            i <= v@.len(),
            forall|j: int| 0 <= j < i ==> (#[trigger] v@[j])@ != s@,
        decreases v@.len() - i,
    {
        if v[i] == *s {
            return true;
        }
        i = i + 1;
    }
    false
}

/// A catalog under construction together with its de-duplication index.
pub struct CatalogBuilder {
    apps: Vec<AppEntry>,
    seen_paths: Vec<String>,
    seen_names: Vec<String>,
}

impl CatalogBuilder {
    /// The entries accepted so far, in order.
    pub closed spec fn entries(&self) -> Seq<AppView> {
        views(self.apps@)
    }

    /// The index holds the lower-cased path and name of each entry.
    pub closed spec fn wf(&self) -> bool {
        &&& self.seen_paths@.len() == self.apps@.len()
        &&& self.seen_names@.len() == self.apps@.len()
        &&& forall|i: int|
            0 <= i < self.apps@.len() ==> (#[trigger] self.seen_paths@[i])@ == lower_of(
                self.apps@[i].path@,
            )
        &&& forall|i: int|
            0 <= i < self.apps@.len() ==> (#[trigger] self.seen_names@[i])@ == lower_of(
                self.apps@[i].name@,
            )
    }

    pub fn new() -> (r: Self)
        ensures
            r.wf(),
            r.entries() == Seq::<AppView>::empty(),
    {
        let r = CatalogBuilder { apps: Vec::new(), seen_paths: Vec::new(), seen_names: Vec::new() };
        assert(r.entries() =~= Seq::<AppView>::empty());
        r
    }

    /// Whether neither the lower-cased path nor the lower-cased name is indexed.
    fn is_fresh(&self, pl: &String, nl: &String) -> (r: bool)
        requires
            self.wf(),
        ensures
            r == fresh(self.entries(), pl@, nl@),
    {
        let seen_p = seen_in(&self.seen_paths, pl);
        let seen_n = seen_in(&self.seen_names, nl);
        proof {
            if seen_p {
                let i = choose|i: int|
                    0 <= i < self.seen_paths@.len() && (#[trigger] self.seen_paths@[i])@ == pl@;
                assert(lower_of(self.entries()[i].path) == pl@);
                assert(!fresh(self.entries(), pl@, nl@));
            }
            if seen_n {
                let i = choose|i: int|
                    0 <= i < self.seen_names@.len() && (#[trigger] self.seen_names@[i])@ == nl@;
                assert(lower_of(self.entries()[i].name) == nl@);
                assert(lower_of(self.entries()[i].path) == self.seen_paths@[i]@);
                assert(!fresh(self.entries(), pl@, nl@));
            }
            if !seen_p && !seen_n {
                assert forall|i: int| 0 <= i < self.entries().len() implies lower_of(
                    #[trigger] self.entries()[i].path,
                ) != pl@ && lower_of(self.entries()[i].name) != nl@ by {
                    assert(self.seen_paths@[i]@ != pl@);
                    assert(self.seen_names@[i]@ != nl@);
                }
                assert(fresh(self.entries(), pl@, nl@));
            }
        }
        !seen_p && !seen_n
    }

    fn push_entry(&mut self, e: AppEntry, pl: String, nl: String)
        requires
            old(self).wf(),
            pl@ == lower_of(e.path@),
            nl@ == lower_of(e.name@),
        ensures
            final(self).wf(),
            final(self).entries() == old(self).entries().push(e@),
    {
        self.apps.push(e);
        self.seen_paths.push(pl);
        self.seen_names.push(nl);
        assert(self.entries() =~= old(self).entries().push(e@));
    }

    /// Offers one registry entry: its name is normalised; it is kept unless
    /// it is noise or its path or name is already indexed.
    pub fn add_registry_entry(&mut self, raw: &AppEntry)
        requires
            old(self).wf(),
        ensures
            final(self).wf(),
            final(self).entries() == add_registry_spec(old(self).entries(), raw@),
    {
        let name = clean_app_name(raw.name.as_str());
        let nl = lowercase(name.as_str());
        if is_noise_lower(nl.as_str()) {
            return;
        }
        let pl = lowercase(raw.path.as_str());
        if !self.is_fresh(&pl, &nl) {
            return;
        }
        let icon = match &raw.icon {
            Some(i) => Some(clone_string(i)),
            None => None,
        };
        let e = AppEntry { name, path: clone_string(&raw.path), icon, category: raw.category };
        self.push_entry(e, pl, nl);
    }

    /// Offers one walked file: only `.lnk` and `.exe` files are candidates;
    /// the normalised name must not be noise, a small `.exe` must carry the
    /// exception token, and neither path nor name may be indexed yet.
    pub fn add_walked_file(&mut self, game_root: bool, file: &WalkedFile)
        requires
            old(self).wf(),
        ensures
            final(self).wf(),
            final(self).entries() == add_file_spec(old(self).entries(), game_root, file@),
    {
        let ext = chars_of(file.ext.as_str());
        let is_lnk = chars_eq(&ext, &chars_of("lnk"));
        let is_exe = chars_eq(&ext, &chars_of("exe"));
        if !is_lnk && !is_exe {
            return;
        }
        let name = clean_app_name(file.stem.as_str());
        let nl = lowercase(name.as_str());
        if is_noise_lower(nl.as_str()) {
            return;
        }
        let nl_chars = chars_of(nl.as_str());
        if is_exe && file.size < MIN_EXE_SIZE && !contains_exec(&nl_chars, &chars_of("midnight")) {
            return;
        }
        let pl = lowercase(file.path.as_str());
        if !self.is_fresh(&pl, &nl) {
            return;
        }
        let pl_chars = chars_of(pl.as_str());
        let category = if launcher_lower(&nl_chars) {
            Some(Category::Launcher)
        } else if game_root || game_path_lower(&pl_chars) {
            Some(Category::Game)
        } else {
            None
        };
        let e = AppEntry { name, path: clone_string(&file.path), icon: None, category };
        self.push_entry(e, pl, nl);
    }

    /// The entries accepted so far.
    pub fn into_entries(self) -> (r: Vec<AppEntry>)
        ensures
            views(r@) == self.entries(),
    {
        self.apps
    }
}

pub open spec fn root_views(v: Seq<RootListing>) -> Seq<RootView> {
    v.map_values(|r: RootListing| r@)
}

/// Builds the catalog: the registry entries in order, then the files of each
/// root in order, each offered to a `CatalogBuilder`. Registry entries come
/// first and are never displaced; nothing is re-sorted.
pub fn scan_all(registry: &Vec<AppEntry>, roots: &Vec<RootListing>) -> (r: Vec<AppEntry>)
    ensures
        views(r@) == catalog_spec(views(registry@), root_views(roots@)),
        dedup(views(r@)),
        names_clean(views(r@)),
{
    proof {
        lemma_catalog_dedup(views(registry@), root_views(roots@));
        lemma_catalog_names_clean(views(registry@), root_views(roots@));
    }
    let mut b = CatalogBuilder::new();
    let raws = Ghost(views(registry@));
    let mut i: usize = 0;
    while i < registry.len()
        invariant
            i <= registry@.len(),
            raws@ == views(registry@),
            b.wf(),
            b.entries() == registry_pass(Seq::empty(), raws@.subrange(0, i as int)),
        decreases registry@.len() - i,
    {
        b.add_registry_entry(&registry[i]);
        proof {
            assert(raws@.subrange(0, i + 1).drop_last() =~= raws@.subrange(0, i as int));
        }
        i = i + 1;
    }
    assert(raws@.subrange(0, registry@.len() as int) =~= raws@);
    let reg = Ghost(b.entries());
    let rv = Ghost(root_views(roots@));
    let mut k: usize = 0;
    while k < roots.len()
        invariant
            k <= roots@.len(),
            rv@ == root_views(roots@),
            b.wf(),
            b.entries() == roots_pass(reg@, rv@.subrange(0, k as int)),
        decreases roots@.len() - k,
    {
        let listing = &roots[k];
        let game_root = is_game_library(listing.root.as_str());
        let before = Ghost(b.entries());
        let fv = Ghost(listing@.files);
        let mut j: usize = 0;
        proof {
            assert(fv@.subrange(0, 0) =~= Seq::<FileView>::empty());
        }
        while j < listing.files.len()
            invariant
                j <= listing.files@.len(),
                fv@ == listing@.files,
                b.wf(),
                b.entries() == files_pass(before@, game_root, fv@.subrange(0, j as int)),
            decreases listing.files@.len() - j,
        {
            b.add_walked_file(game_root, &listing.files[j]);
            proof {
                assert(fv@.subrange(0, j + 1).drop_last() =~= fv@.subrange(0, j as int));
            }
            j = j + 1;
        }
        proof {
            assert(fv@.subrange(0, j as int) =~= fv@);
            assert(rv@.subrange(0, k + 1).drop_last() =~= rv@.subrange(0, k as int));
        }
        k = k + 1;
    }
    assert(rv@.subrange(0, roots@.len() as int) =~= rv@);
    b.into_entries()
}

proof fn lemma_push_dedup(cat: Seq<AppView>, x: AppView)
    requires
        dedup(cat),
        fresh(cat, lower_of(x.path), lower_of(x.name)),
    ensures
        dedup(cat.push(x)),
{
    let c = cat.push(x);
    assert forall|i: int, j: int| 0 <= i < j < c.len() implies lower_of(#[trigger] c[i].path)
        != lower_of(#[trigger] c[j].path) && lower_of(c[i].name) != lower_of(c[j].name) by {
        if j < cat.len() {
            assert(c[i] == cat[i] && c[j] == cat[j]);
            assert(lower_of(cat[i].path) != lower_of(cat[j].path));
        } else {
            assert(c[i] == cat[i] && c[j] == x);
            assert(lower_of(cat[i].path) != lower_of(x.path));
        }
    }
}

proof fn lemma_registry_pass_dedup(cat: Seq<AppView>, raws: Seq<AppView>)
    requires
        dedup(cat),
    ensures
        dedup(registry_pass(cat, raws)),
    decreases raws.len(),
{
    if raws.len() > 0 {
        let c = registry_pass(cat, raws.drop_last());
        lemma_registry_pass_dedup(cat, raws.drop_last());
        let raw = raws.last();
        let name = clean_name(raw.name);
        if !(noise_rule(lower_of(name)) || !fresh(c, lower_of(raw.path), lower_of(name))) {
            lemma_push_dedup(c, AppView { name: name, ..raw });
        }
    }
}

proof fn lemma_files_pass(cat: Seq<AppView>, game_root: bool, files: Seq<FileView>)
    ensures
        cat.len() <= files_pass(cat, game_root, files).len(),
        files_pass(cat, game_root, files).subrange(0, cat.len() as int) == cat,
        dedup(cat) ==> dedup(files_pass(cat, game_root, files)),
    decreases files.len(),
{
    if files.len() > 0 {
        let c = files_pass(cat, game_root, files.drop_last());
        lemma_files_pass(cat, game_root, files.drop_last());
        let f = files.last();
        let name = clean_name(f.stem);
        let nl = lower_of(name);
        let pl = lower_of(f.path);
        if !(!(f.ext == "lnk"@ || f.ext == "exe"@) || noise_rule(nl) || below_size_gate(f, nl)
            || !fresh(c, pl, nl)) {
            let x = AppView {
                name: name,
                path: f.path,
                icon: None,
                category: category_for(nl, pl, game_root),
            };
            if dedup(cat) {
                lemma_push_dedup(c, x);
            }
            assert(c.push(x).subrange(0, cat.len() as int) =~= c.subrange(0, cat.len() as int));
        }
    }
}

proof fn lemma_roots_pass(cat: Seq<AppView>, roots: Seq<RootView>)
    ensures
        cat.len() <= roots_pass(cat, roots).len(),
        roots_pass(cat, roots).subrange(0, cat.len() as int) == cat,
        dedup(cat) ==> dedup(roots_pass(cat, roots)),
    decreases roots.len(),
{
    if roots.len() > 0 {
        let c = roots_pass(cat, roots.drop_last());
        lemma_roots_pass(cat, roots.drop_last());
        let r = roots.last();
        let g = game_path_rule(lower_of(r.root));
        lemma_files_pass(c, g, r.files);
        let d = files_pass(c, g, r.files);
        assert(d.subrange(0, cat.len() as int) =~= d.subrange(0, c.len() as int).subrange(
            0,
            cat.len() as int,
        ));
    }
}

/// No two entries of a built catalog share a case-insensitive path, and no
/// two share a case-insensitive name.
pub proof fn lemma_catalog_dedup(raws: Seq<AppView>, roots: Seq<RootView>)
    ensures
        dedup(catalog_spec(raws, roots)),
{
    lemma_registry_pass_dedup(Seq::empty(), raws);
    lemma_roots_pass(registry_pass(Seq::empty(), raws), roots);
}

/// The entries accepted from the registry open the catalog unchanged, and no
/// other entry, from the registry or from disk, shares a case-insensitive
/// path or name with any of them: each is the only entry for its path and
/// its name.
pub proof fn lemma_registry_priority(raws: Seq<AppView>, roots: Seq<RootView>)
    ensures
        ({
            let reg = registry_pass(Seq::empty(), raws);
            let cat = catalog_spec(raws, roots);
            &&& reg.len() <= cat.len()
            &&& cat.subrange(0, reg.len() as int) == reg
            &&& forall|i: int, j: int|
                0 <= i < reg.len() && 0 <= j < cat.len() && j != i ==> lower_of(
                    #[trigger] cat[j].path,
                ) != lower_of(#[trigger] reg[i].path) && lower_of(cat[j].name) != lower_of(
                    reg[i].name,
                )
        }),
{
    let reg = registry_pass(Seq::empty(), raws);
    let cat = catalog_spec(raws, roots);
    lemma_catalog_dedup(raws, roots);
    lemma_roots_pass(reg, roots);
    assert forall|i: int, j: int| 0 <= i < reg.len() && 0 <= j < cat.len() && j != i implies lower_of(
        #[trigger] cat[j].path,
    ) != lower_of(#[trigger] reg[i].path) && lower_of(cat[j].name) != lower_of(reg[i].name) by {
        assert(reg[i] == cat.subrange(0, reg.len() as int)[i]);
        assert(reg[i] == cat[i]);
        if i < j {
            assert(lower_of(cat[i].path) != lower_of(cat[j].path));
        } else {
            assert(lower_of(cat[j].path) != lower_of(cat[i].path));
        }
    }
}

/// A `.exe` under the minimum size is turned away unless its normalised,
/// lower-cased name holds `midnight`; with that token it is kept whatever its
/// size, when it is not noise and not a duplicate.
pub proof fn lemma_size_gate(cat: Seq<AppView>, game_root: bool, f: FileView)
    ensures
        ({
            let nl = lower_of(clean_name(f.stem));
            &&& f.ext == "exe"@ && f.size < MIN_EXE_SIZE && !contains(nl, "midnight"@)
                ==> add_file_spec(cat, game_root, f) == cat
            &&& f.ext == "exe"@ && contains(nl, "midnight"@) && !noise_rule(nl) && fresh(
                cat,
                lower_of(f.path),
                nl,
            ) ==> add_file_spec(cat, game_root, f) == cat.push(
                AppView {
                    name: clean_name(f.stem),
                    path: f.path,
                    icon: None,
                    category: category_for(nl, lower_of(f.path), game_root),
                },
            )
        }),
{
}

/// The game-library folders looked for on every drive.
pub open spec fn game_library_subpaths_spec() -> Seq<Seq<char>> {
    seq![
        "Games"@, "XboxGames"@, "Epic Games"@, "GOG Games"@, "SteamLibrary/steamapps/common"@,
        "Program Files/Steam/steamapps/common"@, "Program Files (x86)/Steam/steamapps/common"@,
    ]
}

/// The game-library folders looked for on every drive, relative to its root.
pub fn game_library_subpaths() -> (r: Vec<&'static str>)
    ensures
        r@.len() == game_library_subpaths_spec().len(),
        forall|i: int| 0 <= i < r@.len() ==> r@[i]@ == #[trigger] game_library_subpaths_spec()[i],
{
    let r: Vec<&'static str> = vec![
        "Games", "XboxGames", "Epic Games", "GOG Games", "SteamLibrary/steamapps/common",
        "Program Files/Steam/steamapps/common", "Program Files (x86)/Steam/steamapps/common",
    ];
    r
}

/// Lines split at `\n`, paired with the text after the last one.
pub open spec fn split_acc(s: Seq<char>) -> (Seq<Seq<char>>, Seq<char>)
    decreases s.len(),
{
    if s.len() == 0 {
        (Seq::empty(), Seq::empty())
    } else {
        let (ls, cur) = split_acc(s.drop_last());
        if s.last() == '\n' {
            (ls.push(cur), Seq::empty())
        } else {
            (ls, cur.push(s.last()))
        }
    }
}

/// The lines of `s`; a final line ending adds no empty line.
pub open spec fn lines_of(s: Seq<char>) -> Seq<Seq<char>> {
    let (ls, cur) = split_acc(s);
    if cur.len() > 0 {
        ls.push(cur)
    } else {
        ls
    }
}

/// The non-blank lines of `ls`, trimmed, each followed by a backslash.
pub open spec fn drive_entries(ls: Seq<Seq<char>>) -> Seq<Seq<char>>
    decreases ls.len(),
{
    if ls.len() == 0 {
        Seq::empty()
    } else {
        let prev = drive_entries(ls.drop_last());
        let t = trim(ls.last());
        if t.len() > 0 {
            prev.push(t + "\\"@)
        } else {
            prev
        }
    }
}

/// The drive roots listed in the output of a logical-disk query: one per
/// non-blank line after the header line.
pub open spec fn drives_spec(s: Seq<char>) -> Seq<Seq<char>> {
    let ls = lines_of(s);
    if ls.len() <= 1 {
        Seq::empty()
    } else {
        drive_entries(ls.subrange(1, ls.len() as int))
    }
}

pub open spec fn char_rows(v: Seq<Vec<char>>) -> Seq<Seq<char>> {
    v.map_values(|r: Vec<char>| r@)
}

/// The drive roots named by a logical-disk listing: the header line is
/// skipped, and every other non-blank line is trimmed and ends in a
/// backslash (`C:` gives `C:\`).
pub fn parse_drive_list(listing: &str) -> (r: Vec<String>)
    ensures
        r@.map_values(|d: String| d@) == drives_spec(listing@),
{
    let s = chars_of(listing);
    let mut lines: Vec<Vec<char>> = Vec::new();
    let mut cur: Vec<char> = Vec::new();
    let mut i: usize = 0;
    while i < s.len()
        invariant
            i <= s@.len(),
            (char_rows(lines@), cur@) == split_acc(s@.subrange(0, i as int)),
        decreases s@.len() - i,
    {
        proof {
            assert(s@.subrange(0, i + 1).drop_last() =~= s@.subrange(0, i as int));
        }
        if s[i] == '\n' {
            let done = cur;
            let ghost before = lines@;
            lines.push(done);
            cur = Vec::new();
            assert(char_rows(lines@) =~= char_rows(before).push(done@));
            assert(cur@ =~= Seq::<char>::empty());
        } else {
            cur.push(s[i]);
        }
        i = i + 1;
    }
    assert(s@.subrange(0, s@.len() as int) =~= s@);
    if cur.len() > 0 {
        let ghost before = lines@;
        let last = cur;
        lines.push(last);
        assert(char_rows(lines@) =~= char_rows(before).push(last@));
    }
    let ghost ls = char_rows(lines@);
    assert(ls == lines_of(s@));
    let mut out: Vec<String> = Vec::new();
    if lines.len() <= 1 {
        assert(out@.map_values(|d: String| d@) =~= Seq::<Seq<char>>::empty());
        return out;
    }
    let mut k: usize = 1;
    assert(ls.subrange(1, 1) =~= Seq::<Seq<char>>::empty());
    assert(out@.map_values(|d: String| d@) =~= Seq::<Seq<char>>::empty());
    while k < lines.len()
        invariant
            1 <= k <= lines@.len(),
            ls == char_rows(lines@),
            out@.map_values(|d: String| d@) == drive_entries(ls.subrange(1, k as int)),
        decreases lines@.len() - k,
    {
        proof {
            assert(ls.subrange(1, k + 1).drop_last() =~= ls.subrange(1, k as int));
        }
        let t = trim_exec(&lines[k]);
        if t.len() > 0 {
            let mut d = string_from_chars(&t);
            d.append("\\");
            let ghost before = out@;
            out.push(d);
            assert(out@.map_values(|d: String| d@) =~= before.map_values(|d: String| d@).push(
                d@,
            ));
        }
        k = k + 1;
    }
    assert(ls.subrange(1, lines@.len() as int) == ls.subrange(1, ls.len() as int));
    out
}

/// A walked `.exe` that the size gate turns away.
pub open spec fn gated_file(f: FileView) -> bool {
    below_size_gate(f, lower_of(clean_name(f.stem)))
}

proof fn lemma_files_pass_skip(cat: Seq<AppView>, g: bool, files: Seq<FileView>, j: int)
    requires
        0 <= j < files.len(),
        gated_file(files[j]),
    ensures
        files_pass(cat, g, files) == files_pass(cat, g, files.remove(j)),
    decreases files.len(),
{
    if j == files.len() - 1 {
        assert(files.remove(j) =~= files.drop_last());
    } else {
        lemma_files_pass_skip(cat, g, files.drop_last(), j);
        assert(files.remove(j).drop_last() =~= files.drop_last().remove(j));
        assert(files.remove(j).last() == files.last());
    }
}

proof fn lemma_files_pass_swap(cat: Seq<AppView>, g: bool, files: Seq<FileView>, j: int, f2: FileView)
    requires
        0 <= j < files.len(),
        forall|c: Seq<AppView>| #[trigger] add_file_spec(c, g, files[j]) == add_file_spec(c, g, f2),
    ensures
        files_pass(cat, g, files) == files_pass(cat, g, files.update(j, f2)),
    decreases files.len(),
{
    if j == files.len() - 1 {
        assert(files.update(j, f2).drop_last() =~= files.drop_last());
        assert(add_file_spec(files_pass(cat, g, files.drop_last()), g, files[j]) == add_file_spec(
            files_pass(cat, g, files.drop_last()),
            g,
            f2,
        ));
    } else {
        lemma_files_pass_swap(cat, g, files.drop_last(), j, f2);
        assert(files.update(j, f2).drop_last() =~= files.drop_last().update(j, f2));
    }
}

/// The roots with the files of root `r` replaced by `fs`.
pub open spec fn with_files(roots: Seq<RootView>, r: int, fs: Seq<FileView>) -> Seq<RootView> {
    roots.update(r, RootView { root: roots[r].root, files: fs })
}

proof fn lemma_roots_pass_files(
    cat: Seq<AppView>,
    roots: Seq<RootView>,
    r: int,
    fs: Seq<FileView>,
)
    requires
        0 <= r < roots.len(),
        forall|c: Seq<AppView>|
            #[trigger] files_pass(c, game_path_rule(lower_of(roots[r].root)), roots[r].files)
                == files_pass(c, game_path_rule(lower_of(roots[r].root)), fs),
    ensures
        roots_pass(cat, roots) == roots_pass(cat, with_files(roots, r, fs)),
    decreases roots.len(),
{
    let up = with_files(roots, r, fs);
    if r == roots.len() - 1 {
        assert(up.drop_last() =~= roots.drop_last());
        let c = roots_pass(cat, roots.drop_last());
        assert(files_pass(c, game_path_rule(lower_of(roots[r].root)), roots[r].files) == files_pass(
            c,
            game_path_rule(lower_of(roots[r].root)),
            fs,
        ));
    } else {
        lemma_roots_pass_files(cat, roots.drop_last(), r, fs);
        assert(up.drop_last() =~= with_files(roots.drop_last(), r, fs));
    }
}

/// A walked `.exe` under the minimum size whose normalised name lacks the
/// exception token contributes nothing: the catalog is the same without it.
pub proof fn lemma_size_gate_catalog(raws: Seq<AppView>, roots: Seq<RootView>, r: int, j: int)
    requires
        0 <= r < roots.len(),
        0 <= j < roots[r].files.len(),
        gated_file(roots[r].files[j]),
    ensures
        catalog_spec(raws, roots) == catalog_spec(
            raws,
            with_files(roots, r, roots[r].files.remove(j)),
        ),
{
    let g = game_path_rule(lower_of(roots[r].root));
    assert forall|c: Seq<AppView>| #[trigger] files_pass(c, g, roots[r].files) == files_pass(
        c,
        g,
        roots[r].files.remove(j),
    ) by {
        lemma_files_pass_skip(c, g, roots[r].files, j);
    }
    lemma_roots_pass_files(registry_pass(Seq::empty(), raws), roots, r, roots[r].files.remove(j));
}

/// The size of a walked `.exe` whose normalised, lower-cased name holds
/// `midnight` does not matter: any other size gives the same catalog.
pub proof fn lemma_exception_size_free(
    raws: Seq<AppView>,
    roots: Seq<RootView>,
    r: int,
    j: int,
    size: u64,
)
    requires
        0 <= r < roots.len(),
        0 <= j < roots[r].files.len(),
        contains(lower_of(clean_name(roots[r].files[j].stem)), "midnight"@),
    ensures
        ({
            let f = roots[r].files[j];
            catalog_spec(raws, roots) == catalog_spec(
                raws,
                with_files(roots, r, roots[r].files.update(j, FileView { size: size, ..f })),
            )
        }),
{
    let g = game_path_rule(lower_of(roots[r].root));
    let f = roots[r].files[j];
    let f2 = FileView { size: size, ..f };
    assert forall|c: Seq<AppView>| #[trigger] add_file_spec(c, g, f) == add_file_spec(c, g, f2) by {
    }
    assert forall|c: Seq<AppView>| #[trigger] files_pass(c, g, roots[r].files) == files_pass(
        c,
        g,
        roots[r].files.update(j, f2),
    ) by {
        lemma_files_pass_swap(c, g, roots[r].files, j, f2);
    }
    lemma_roots_pass_files(registry_pass(Seq::empty(), raws), roots, r, roots[r].files.update(j, f2));
}

/// Every name of `cat` is already in normal form.
pub open spec fn names_clean(cat: Seq<AppView>) -> bool {
    forall|i: int| 0 <= i < cat.len() ==> clean_name(#[trigger] cat[i].name) == cat[i].name
}

proof fn lemma_push_clean(cat: Seq<AppView>, x: AppView, raw: Seq<char>)
    requires
        names_clean(cat),
        x.name == clean_name(raw),
    ensures
        names_clean(cat.push(x)),
{
    lemma_clean_idempotent(raw);
    let c = cat.push(x);
    assert forall|i: int| 0 <= i < c.len() implies clean_name(#[trigger] c[i].name) == c[i].name by {
        if i < cat.len() {
            assert(c[i] == cat[i]);
        }
    }
}

proof fn lemma_registry_pass_clean(cat: Seq<AppView>, raws: Seq<AppView>)
    requires
        names_clean(cat),
    ensures
        names_clean(registry_pass(cat, raws)),
    decreases raws.len(),
{
    if raws.len() > 0 {
        lemma_registry_pass_clean(cat, raws.drop_last());
        let c = registry_pass(cat, raws.drop_last());
        let raw = raws.last();
        let name = clean_name(raw.name);
        if !(noise_rule(lower_of(name)) || !fresh(c, lower_of(raw.path), lower_of(name))) {
            lemma_push_clean(c, AppView { name: name, ..raw }, raw.name);
        }
    }
}

proof fn lemma_files_pass_clean(cat: Seq<AppView>, g: bool, files: Seq<FileView>)
    requires
        names_clean(cat),
    ensures
        names_clean(files_pass(cat, g, files)),
    decreases files.len(),
{
    if files.len() > 0 {
        lemma_files_pass_clean(cat, g, files.drop_last());
        let c = files_pass(cat, g, files.drop_last());
        let f = files.last();
        let name = clean_name(f.stem);
        let nl = lower_of(name);
        let pl = lower_of(f.path);
        if !(!(f.ext == "lnk"@ || f.ext == "exe"@) || noise_rule(nl) || below_size_gate(f, nl)
            || !fresh(c, pl, nl)) {
            lemma_push_clean(
                c,
                AppView { name: name, path: f.path, icon: None, category: category_for(nl, pl, g) },
                f.stem,
            );
        }
    }
}

proof fn lemma_roots_pass_clean(cat: Seq<AppView>, roots: Seq<RootView>)
    requires
        names_clean(cat),
    ensures
        names_clean(roots_pass(cat, roots)),
    decreases roots.len(),
{
    if roots.len() > 0 {
        lemma_roots_pass_clean(cat, roots.drop_last());
        let r = roots.last();
        lemma_files_pass_clean(
            roots_pass(cat, roots.drop_last()),
            game_path_rule(lower_of(r.root)),
            r.files,
        );
    }
}

/// Every name in a built catalog is in normal form: normalising it again
/// changes nothing.
pub proof fn lemma_catalog_names_clean(raws: Seq<AppView>, roots: Seq<RootView>)
    ensures
        names_clean(catalog_spec(raws, roots)),
{
    lemma_registry_pass_clean(Seq::empty(), raws);
    lemma_roots_pass_clean(registry_pass(Seq::empty(), raws), roots);
}

} // verus!
