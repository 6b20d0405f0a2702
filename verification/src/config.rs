//! The program's configuration: its defaults and how the command line
//! overrides them.

use vstd::prelude::*;
use crate::cli::{Args, ArgsModel};
use crate::text::{clone_strings, strings_view};

verus! {

/// The program's configuration.
#[derive(Clone, Debug)]
pub struct Config {
    pub db_path: String,
    pub scanner_batch_size: usize,
    pub scanner_threads: usize,
    pub hasher_worker_threads: usize,
    pub hasher_batch_queue_size: usize,
    pub hasher_batch_size: usize,
    pub hash_algorithm: String,
    pub perceptual_hash_algorithm: String,
    pub scan_paths: Vec<String>,
    pub scenarios: Vec<Scenario>,
}

/// A named set of conditions and of the actions to take on a photo group.
#[derive(Clone, Debug)]
pub struct Scenario {
    pub name: String,
    pub description: String,
    pub conditions: Vec<String>,
    pub actions: Vec<String>,
}

/// The mathematical value of a [`Scenario`].
#[verifier::ext_equal]
pub struct ScenarioModel {
    pub name: Seq<char>,
    pub description: Seq<char>,
    pub conditions: Seq<Seq<char>>,
    pub actions: Seq<Seq<char>>,
}

impl View for Scenario {
    type V = ScenarioModel;

    open spec fn view(&self) -> ScenarioModel {
        ScenarioModel {
            name: self.name@,
            description: self.description@,
            conditions: strings_view(self.conditions@),
            actions: strings_view(self.actions@),
        }
    }
}

/// The mathematical value of a [`Config`].
#[verifier::ext_equal]
pub struct ConfigModel {
    pub db_path: Seq<char>,
    pub scanner_batch_size: usize,
    pub scanner_threads: usize,
    pub hasher_worker_threads: usize,
    pub hasher_batch_queue_size: usize,
    pub hasher_batch_size: usize,
    pub hash_algorithm: Seq<char>,
    pub perceptual_hash_algorithm: Seq<char>,
    pub scan_paths: Seq<Seq<char>>,
    pub scenarios: Seq<ScenarioModel>,
}

impl View for Config {
    type V = ConfigModel;

    open spec fn view(&self) -> ConfigModel {
        ConfigModel {
            db_path: self.db_path@,
            scanner_batch_size: self.scanner_batch_size,
            scanner_threads: self.scanner_threads,
            hasher_worker_threads: self.hasher_worker_threads,
            hasher_batch_queue_size: self.hasher_batch_queue_size,
            hasher_batch_size: self.hasher_batch_size,
            hash_algorithm: self.hash_algorithm@,
            perceptual_hash_algorithm: self.perceptual_hash_algorithm@,
            scan_paths: strings_view(self.scan_paths@),
            scenarios: self.scenarios@.map_values(|s: Scenario| s@),
        }
    }
}

/// The configuration used where the configuration file does not say otherwise.
pub open spec fn default_config() -> ConfigModel {
    ConfigModel {
        db_path: "photos.db"@,
        scanner_batch_size: 100,
        scanner_threads: 4,
        hasher_worker_threads: 4,
        hasher_batch_queue_size: 10,
        hasher_batch_size: 50,
        hash_algorithm: "sha256"@,
        perceptual_hash_algorithm: "phash"@,
        scan_paths: Seq::empty(),
        scenarios: Seq::empty(),
    }
}

/// The configuration `c` once the command line `a` has overridden it: every
/// setting that the command line gives (database path, thread counts, batch
/// sizes, queue size, hash algorithms), and its scan paths when it gives at
/// least one; the scenarios, and every setting it does not give, stay.
pub open spec fn with_overrides(c: ConfigModel, a: ArgsModel) -> ConfigModel {
    ConfigModel {
        db_path: match a.db_path {
            Some(p) => p,
            None => c.db_path,
        },
        scanner_threads: match a.scanner_threads {
            Some(n) => n,
            None => c.scanner_threads,
        },
        hasher_worker_threads: match a.hasher_threads {
            Some(n) => n,
            None => c.hasher_worker_threads,
        },
        scanner_batch_size: match a.scanner_batch_size {
            Some(n) => n,
            None => c.scanner_batch_size,
        },
        hasher_batch_queue_size: match a.hasher_batch_queue_size {
            Some(n) => n,
            None => c.hasher_batch_queue_size,
        },
        hasher_batch_size: match a.hasher_batch_size {
            Some(n) => n,
            None => c.hasher_batch_size,
        },
        hash_algorithm: match a.hash_algorithm {
            Some(h) => h,
            None => c.hash_algorithm,
        },
        perceptual_hash_algorithm: match a.perceptual_hash_algorithm {
            Some(h) => h,
            None => c.perceptual_hash_algorithm,
        },
        scan_paths: if a.scan_paths.len() > 0 {
            a.scan_paths
        } else {
            c.scan_paths
        },
        ..c
    }
}

impl Default for Config {
    fn default() -> (r: Self)
        ensures
            r@ == default_config(),
    {
        let r = Config {
            db_path: "photos.db".to_owned(),
            scanner_batch_size: 100,
            scanner_threads: 4,
            hasher_worker_threads: 4,
            hasher_batch_queue_size: 10,
            hasher_batch_size: 50,
            hash_algorithm: "sha256".to_owned(),
            perceptual_hash_algorithm: "phash".to_owned(),
            scan_paths: Vec::new(),
            scenarios: Vec::new(),
        };
        assert(r@ =~= default_config());
        r
    }
}

impl Config {
    /// Lets the command line override the configuration.
    pub fn apply_cli_overrides(&mut self, args: &Args)
        ensures
            final(self)@ == with_overrides(old(self)@, args@),
    {
        if let Some(db_path) = &args.db_path {
            self.db_path = db_path.clone();
        }
        if let Some(scanner_threads) = args.scanner_threads {
            self.scanner_threads = scanner_threads;
        }
        if let Some(hasher_threads) = args.hasher_threads {
            self.hasher_worker_threads = hasher_threads;
        }
        if let Some(n) = args.scanner_batch_size {
            self.scanner_batch_size = n;
        }
        if let Some(n) = args.hasher_batch_queue_size {
            self.hasher_batch_queue_size = n;
        }
        if let Some(n) = args.hasher_batch_size {
            self.hasher_batch_size = n;
        }
        if let Some(h) = &args.hash_algorithm {
            self.hash_algorithm = h.clone();
        }
        if let Some(h) = &args.perceptual_hash_algorithm {
            self.perceptual_hash_algorithm = h.clone();
        }
        if args.scan_paths.len() > 0 {
            self.scan_paths = clone_strings(&args.scan_paths);
        }
        assert(self@ =~= with_overrides(old(self)@, args@));
    }
}

/// Overriding twice with the same command line is overriding once.
pub proof fn lemma_overrides_idempotent(c: ConfigModel, a: ArgsModel)
    ensures
        with_overrides(with_overrides(c, a), a) == with_overrides(c, a),
{
    assert(with_overrides(with_overrides(c, a), a) =~= with_overrides(c, a));
}

/// The command line wins: each setting that it gives is the one the
/// configuration then has, and the scenarios never change.
pub proof fn lemma_command_line_wins(c: ConfigModel, a: ArgsModel)
    ensures
        a.db_path matches Some(p) ==> with_overrides(c, a).db_path == p,
        a.scanner_threads matches Some(n) ==> with_overrides(c, a).scanner_threads == n,
        a.hasher_threads matches Some(n) ==> with_overrides(c, a).hasher_worker_threads == n,
        a.scanner_batch_size matches Some(n) ==> with_overrides(c, a).scanner_batch_size == n,
        a.hasher_batch_queue_size matches Some(n) ==> with_overrides(c, a).hasher_batch_queue_size == n,
        a.hasher_batch_size matches Some(n) ==> with_overrides(c, a).hasher_batch_size == n,
        a.hash_algorithm matches Some(h) ==> with_overrides(c, a).hash_algorithm == h,
        a.perceptual_hash_algorithm matches Some(h) ==> with_overrides(c, a).perceptual_hash_algorithm == h,
        a.scan_paths.len() > 0 ==> with_overrides(c, a).scan_paths == a.scan_paths,
        with_overrides(c, a).scenarios == c.scenarios,
{
}

/// A command line that gives nothing to override leaves the configuration as it is.
pub proof fn lemma_empty_command_line_overrides_nothing(c: ConfigModel, a: ArgsModel)
    requires
        a.db_path is None,
        a.scanner_threads is None,
        a.hasher_threads is None,
        a.scanner_batch_size is None,
        a.hasher_batch_queue_size is None,
        a.hasher_batch_size is None,
        a.hash_algorithm is None,
        a.perceptual_hash_algorithm is None,
        a.scan_paths.len() == 0,
    ensures
        with_overrides(c, a) == c,
{
    assert(with_overrides(c, a) =~= c);
}

} // verus!
