//! The state that the scanner, the hasher, the grouper and the web interface
//! share: what runs, the counters, and the duplicate groups found.

use vstd::prelude::*;
use crate::text::strings_view;

verus! {

/// What the state records of one image of a duplicate group.
#[derive(Debug, Clone)]
pub struct ImageInfo {
    pub id: String,
    pub path: String,
    pub size: u64,
    pub content_hash: String,
    pub perceptual_hash: String,
}

/// The mathematical value of an [`ImageInfo`].
#[verifier::ext_equal]
pub struct ImageInfoModel {
    pub id: Seq<char>,
    pub path: Seq<char>,
    pub size: u64,
    pub content_hash: Seq<char>,
    pub perceptual_hash: Seq<char>,
}

impl View for ImageInfo {
    type V = ImageInfoModel;

    open spec fn view(&self) -> ImageInfoModel {
        ImageInfoModel {
            id: self.id@,
            path: self.path@,
            size: self.size,
            content_hash: self.content_hash@,
            perceptual_hash: self.perceptual_hash@,
        }
    }
}

/// A group of images with the same content hash.
#[derive(Debug, Clone)]
pub struct DuplicateGroup {
    pub hash: String,
    pub perceptual_hash: String,
    pub images: Vec<ImageInfo>,
}

/// The mathematical value of a [`DuplicateGroup`].
#[verifier::ext_equal]
pub struct DuplicateGroupModel {
    pub hash: Seq<char>,
    pub perceptual_hash: Seq<char>,
    pub images: Seq<ImageInfoModel>,
}

impl View for DuplicateGroup {
    type V = DuplicateGroupModel;

    open spec fn view(&self) -> DuplicateGroupModel {
        DuplicateGroupModel {
            hash: self.hash@,
            perceptual_hash: self.perceptual_hash@,
            images: self.images@.map_values(|i: ImageInfo| i@),
        }
    }
}

/// The views of a list of duplicate groups.
pub open spec fn duplicate_groups_view(v: Seq<DuplicateGroup>) -> Seq<DuplicateGroupModel> {
    v.map_values(|g: DuplicateGroup| g@)
}

/// The shared state of the processes.
#[derive(Debug, Clone)]
pub struct AppState {
    pub scanner_running: bool,
    pub scanner_paused: bool,
    pub hasher_running: bool,
    pub hasher_paused: bool,
    pub grouper_running: bool,
    pub total_images_discovered: usize,
    pub total_images_hashed: usize,
    pub total_images_to_hash: usize,
    pub total_duplicate_groups: usize,
    pub scanner_paths: Vec<String>,
    pub duplicate_groups: Vec<DuplicateGroup>,
}

/// The mathematical value of an [`AppState`].
#[verifier::ext_equal]
pub struct AppStateModel {
    pub scanner_running: bool,
    pub scanner_paused: bool,
    pub hasher_running: bool,
    pub hasher_paused: bool,
    pub grouper_running: bool,
    pub total_images_discovered: usize,
    pub total_images_hashed: usize,
    pub total_images_to_hash: usize,
    pub total_duplicate_groups: usize,
    pub scanner_paths: Seq<Seq<char>>,
    pub duplicate_groups: Seq<DuplicateGroupModel>,
}

impl View for AppState {
    type V = AppStateModel;

    open spec fn view(&self) -> AppStateModel {
        AppStateModel {
            scanner_running: self.scanner_running,
            scanner_paused: self.scanner_paused,
            hasher_running: self.hasher_running,
            hasher_paused: self.hasher_paused,
            grouper_running: self.grouper_running,
            total_images_discovered: self.total_images_discovered,
            total_images_hashed: self.total_images_hashed,
            total_images_to_hash: self.total_images_to_hash,
            total_duplicate_groups: self.total_duplicate_groups,
            scanner_paths: strings_view(self.scanner_paths@),
            duplicate_groups: duplicate_groups_view(self.duplicate_groups@),
        }
    }
}

/// The state when nothing has run yet.
pub open spec fn initial_state() -> AppStateModel {
    AppStateModel {
        scanner_running: false,
        scanner_paused: false,
        hasher_running: false,
        hasher_paused: false,
        grouper_running: false,
        total_images_discovered: 0,
        total_images_hashed: 0,
        total_images_to_hash: 0,
        total_duplicate_groups: 0,
        scanner_paths: Seq::empty(),
        duplicate_groups: Seq::empty(),
    }
}

/// A request to start or stop one of the processes.
#[derive(PartialEq, Eq, Structural, Clone, Copy, Debug)]
pub enum Control {
    StartScanner,
    StopScanner,
    StartHasher,
    StopHasher,
    StartGrouper,
    StopGrouper,
}

/// The state once the request `c` has been applied: it sets the running
/// flag of its process, and nothing else.
pub open spec fn controlled(s: AppStateModel, c: Control) -> AppStateModel {
    match c {
        Control::StartScanner => AppStateModel { scanner_running: true, ..s },
        Control::StopScanner => AppStateModel { scanner_running: false, ..s },
        Control::StartHasher => AppStateModel { hasher_running: true, ..s },
        Control::StopHasher => AppStateModel { hasher_running: false, ..s },
        Control::StartGrouper => AppStateModel { grouper_running: true, ..s },
        Control::StopGrouper => AppStateModel { grouper_running: false, ..s },
    }
}

impl AppState {
    /// The state when nothing has run yet.
    pub fn new() -> (r: Self)
        ensures
            r@ == initial_state(),
    {
        let r = AppState {
            scanner_running: false,
            scanner_paused: false,
            hasher_running: false,
            hasher_paused: false,
            grouper_running: false,
            total_images_discovered: 0,
            total_images_hashed: 0,
            total_images_to_hash: 0,
            total_duplicate_groups: 0,
            scanner_paths: Vec::new(),
            duplicate_groups: Vec::new(),
        };
        assert(r@ =~= initial_state());
        r
    }

    /// Starts or stops a process.
    pub fn apply_control(&mut self, c: Control)
        ensures
            final(self)@ == controlled(old(self)@, c),
    {
        match c {
            Control::StartScanner => self.scanner_running = true,
            Control::StopScanner => self.scanner_running = false,
            Control::StartHasher => self.hasher_running = true,
            Control::StopHasher => self.hasher_running = false,
            Control::StartGrouper => self.grouper_running = true,
            Control::StopGrouper => self.grouper_running = false,
        }
        assert(self@ =~= controlled(old(self)@, c));
    }

    /// Counts the images of a batch that the scanner has stored.
    pub fn record_discovered(&mut self, n: usize)
        requires
            old(self).total_images_discovered + n <= usize::MAX,
        ensures
            final(self)@ == (AppStateModel {
                total_images_discovered: (old(self).total_images_discovered + n) as usize,
                ..old(self)@
            }),
    {
        self.total_images_discovered = self.total_images_discovered + n;
        assert(self@ =~= AppStateModel {
            total_images_discovered: (old(self).total_images_discovered + n) as usize,
            ..old(self)@
        });
    }

    /// Records how many images the hasher has hashed so far.
    pub fn record_hashed(&mut self, total: usize)
        ensures
            final(self)@ == (AppStateModel { total_images_hashed: total, ..old(self)@ }),
    {
        self.total_images_hashed = total;
        assert(self@ =~= AppStateModel { total_images_hashed: total, ..old(self)@ });
    }

    /// Records the duplicate groups that the grouper built, of which
    /// `count` are shown, and marks the grouper as done.
    pub fn record_duplicate_groups(&mut self, groups: Vec<DuplicateGroup>, count: usize)
        ensures
            final(self)@ == (AppStateModel {
                total_duplicate_groups: count,
                duplicate_groups: duplicate_groups_view(groups@),
                grouper_running: false,
                ..old(self)@
            }),
    {
        let ghost g = duplicate_groups_view(groups@);
        self.total_duplicate_groups = count;
        self.duplicate_groups = groups;
        self.grouper_running = false;
        assert(self@ =~= AppStateModel {
            total_duplicate_groups: count,
            duplicate_groups: g,
            grouper_running: false,
            ..old(self)@
        });
    }

    /// Whether the scanner should start: it was asked to run, and there is
    /// somewhere to scan.
    pub fn scanner_should_run(&self, paths: &Vec<String>) -> (r: bool)
        ensures
            r == (self.scanner_running && paths@.len() > 0),
    {
        self.scanner_running && paths.len() > 0
    }
}

impl Default for AppState {
    fn default() -> (r: Self)
        ensures
            r@ == initial_state(),
    {
        AppState::new()
    }
}

/// A request leaves every other process as it was.
pub proof fn lemma_control_touches_one_process(s: AppStateModel, c: Control)
    ensures
        controlled(s, c).total_images_discovered == s.total_images_discovered,
        controlled(s, c).total_images_hashed == s.total_images_hashed,
        controlled(s, c).duplicate_groups == s.duplicate_groups,
        !(c is StartScanner || c is StopScanner) ==> controlled(s, c).scanner_running == s.scanner_running,
        !(c is StartHasher || c is StopHasher) ==> controlled(s, c).hasher_running == s.hasher_running,
        !(c is StartGrouper || c is StopGrouper) ==> controlled(s, c).grouper_running == s.grouper_running,
{
}

/// Requests are idempotent, and a stop undoes a start.
pub proof fn lemma_control_idempotent_and_undone(s: AppStateModel, c: Control)
    ensures
        controlled(controlled(s, c), c) == controlled(s, c),
        controlled(controlled(s, Control::StartScanner), Control::StopScanner)
            == controlled(s, Control::StopScanner),
        controlled(controlled(s, Control::StartHasher), Control::StopHasher)
            == controlled(s, Control::StopHasher),
        controlled(controlled(s, Control::StartGrouper), Control::StopGrouper)
            == controlled(s, Control::StopGrouper),
{
    assert(controlled(controlled(s, c), c) =~= controlled(s, c));
    assert(controlled(controlled(s, Control::StartScanner), Control::StopScanner)
        =~= controlled(s, Control::StopScanner));
    assert(controlled(controlled(s, Control::StartHasher), Control::StopHasher)
        =~= controlled(s, Control::StopHasher));
    assert(controlled(controlled(s, Control::StartGrouper), Control::StopGrouper)
        =~= controlled(s, Control::StopGrouper));
}

} // verus!
