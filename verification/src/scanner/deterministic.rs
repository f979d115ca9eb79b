//! Detecting technologies from filesystem markers: marker files and
//! directories, `package.json` and `Cargo.toml` dependencies, and the
//! extensions of the files near the project root.
use vstd::prelude::*;

use crate::json::{json_keys_at, json_pointer_keys, json_pointer_str, json_str_at};
use crate::scanner::models::{confidence_rank, Confidence, DetectedTech, DetectionSource};
use crate::seqs::{contains_string, flat_map, lemma_flat_map_full, lemma_flat_map_take};
use crate::text::{
    chars_of, concat2, concat3, find, find_chars, matches_at, owned, push_str, raw_lines,
    raw_lines_of, starts_with, str_eq, string_from_chars, trim, trim_chars, views,
};

verus! {

/// What a path of the project is.
#[derive(Debug, Clone, Copy, PartialEq, Eq, Structural)]
pub enum PathKind {
    Missing,
    File,
    Dir,
}

/// An entry of the project's root directory. For a directory, `files`
/// lists the names of the regular files directly inside it.
#[derive(Debug, Clone)]
pub struct EntryFacts {
    pub name: String,
    pub kind: PathKind,
    pub files: Vec<String>,
}

/// What scanning reads from a project directory.
#[derive(Debug, Clone)]
pub struct ProjectFacts {
    /// What each path of `probed_paths()` (relative to the root) is.
    pub probes: Vec<(String, PathKind)>,
    /// The entries of the root directory, in the order it lists them.
    pub root_entries: Vec<EntryFacts>,
    /// The content of `package.json`, when it can be read.
    pub package_json: Option<String>,
    /// The content of `Cargo.toml`, when it can be read.
    pub cargo_toml: Option<String>,
}

/// One detection: a technology, its category, the evidence, a confidence,
/// and the version to record (from `package.json`), if any.
#[derive(Debug, Clone)]
pub struct Detection {
    pub tech: String,
    pub category: String,
    pub evidence: String,
    pub confidence: Confidence,
    pub version: Option<String>,
}

/// A detection as plain values.
pub type DetView = (Seq<char>, Seq<char>, Seq<char>, Confidence, Option<Seq<char>>);

/// The plain values of a detection.
pub open spec fn det_view(d: Detection) -> DetView {
    (
        d.tech@,
        d.category@,
        d.evidence@,
        d.confidence,
        match d.version {
            Some(v) => Some(v@),
            None => None,
        },
    )
}

/// The plain values of a list of detections.
pub open spec fn dets_view(v: Seq<Detection>) -> Seq<DetView> {
    v.map_values(|d: Detection| det_view(d))
}

/// A detected technology as plain values: name, category, evidence, source,
/// confidence, version.
pub type TechView = (
    Seq<char>,
    Seq<char>,
    Seq<Seq<char>>,
    DetectionSource,
    Confidence,
    Option<Seq<char>>,
);

/// The plain values of a detected technology.
pub open spec fn tech_view(t: DetectedTech) -> TechView {
    (
        t.name@,
        t.category@,
        t.evidence@.map_values(|e: String| e@),
        t.source,
        t.confidence,
        match t.version {
            Some(v) => Some(v@),
            None => None,
        },
    )
}

/// The plain values of a list of detected technologies.
pub open spec fn techs_view(v: Seq<DetectedTech>) -> Seq<TechView> {
    v.map_values(|t: DetectedTech| tech_view(t))
}

/// The position of the technology named `name` in `m`, if any.
pub open spec fn tech_pos(m: Seq<TechView>, name: Seq<char>) -> Option<int>
    decreases m.len(),
{
    if m.len() == 0 {
        None
    } else {
        match tech_pos(m.drop_last(), name) {
            Some(k) => Some(k),
            None => if m.last().0 == name {
                Some(m.len() - 1)
            } else {
                None
            },
        }
    }
}

/// A technology first detected by `d`.
pub open spec fn new_tech(d: DetView) -> TechView {
    (d.0, d.1, seq![d.2], DetectionSource::Deterministic, d.3, d.4)
}

/// A technology after detection `d` of it again: the evidence is added
/// unless already there, the confidence rises to `d`'s if that is higher,
/// and a version `d` carries replaces the old one.
pub open spec fn merge_tech(t: TechView, d: DetView) -> TechView {
    (
        t.0,
        t.1,
        if t.2.contains(d.2) {
            t.2
        } else {
            t.2.push(d.2)
        },
        t.3,
        if confidence_rank(d.3) > confidence_rank(t.4) {
            d.3
        } else {
            t.4
        },
        match d.4 {
            Some(v) => Some(v),
            None => t.5,
        },
    )
}

/// The technologies after detection `d`.
pub open spec fn add_detection(m: Seq<TechView>, d: DetView) -> Seq<TechView> {
    match tech_pos(m, d.0) {
        Some(k) => m.update(k, merge_tech(m[k], d)),
        None => m.push(new_tech(d)),
    }
}

/// The technologies after all detections, in order, starting from none;
/// each technology appears once, where it was first detected.
pub open spec fn apply_detections(ds: Seq<DetView>) -> Seq<TechView>
    decreases ds.len(),
{
    if ds.len() == 0 {
        Seq::empty()
    } else {
        add_detection(apply_detections(ds.drop_last()), ds.last())
    }
}

proof fn lemma_tech_pos(m: Seq<TechView>, name: Seq<char>)
    ensures
        match tech_pos(m, name) {
            Some(k) => 0 <= k < m.len() && m[k].0 == name && forall|j: int|
                0 <= j < k ==> #[trigger] m[j].0 != name,
            None => forall|j: int| 0 <= j < m.len() ==> #[trigger] m[j].0 != name,
        },
    decreases m.len(),
{
    if m.len() > 0 {
        lemma_tech_pos(m.drop_last(), name);
        assert(m.last() == m[m.len() - 1]);
        assert forall|j: int| 0 <= j < m.len() - 1 implies m[j] == m.drop_last()[j] by {}
    }
}

/// What scanning finds holds each technology once, every one of them
/// detected from the filesystem, and every technology a detection named.
pub proof fn lemma_detections_merged(ds: Seq<DetView>)
    ensures
        forall|i: int, j: int|
            0 <= i < apply_detections(ds).len() && 0 <= j < apply_detections(ds).len() && i != j
                ==> #[trigger] apply_detections(ds)[i].0 != #[trigger] apply_detections(ds)[j].0,
        forall|k: int|
            0 <= k < apply_detections(ds).len() ==> #[trigger] apply_detections(ds)[k].3
                == DetectionSource::Deterministic,
        forall|i: int|
            0 <= i < ds.len() ==> exists|k: int|
                0 <= k < apply_detections(ds).len() && #[trigger] apply_detections(ds)[k].0
                    == #[trigger] ds[i].0,
    decreases ds.len(),
{
    if ds.len() > 0 {
        let pre = ds.drop_last();
        let d = ds.last();
        lemma_detections_merged(pre);
        let m = apply_detections(pre);
        let r = apply_detections(ds);
        lemma_tech_pos(m, d.0);
        match tech_pos(m, d.0) {
            Some(p) => {
                assert(r == m.update(p, merge_tech(m[p], d)));
                assert forall|i: int, j: int|
                    0 <= i < r.len() && 0 <= j < r.len() && i != j implies #[trigger] r[i].0
                    != #[trigger] r[j].0 by {
                    assert(r[i].0 == m[i].0);
                    assert(r[j].0 == m[j].0);
                }
                assert forall|k: int| 0 <= k < r.len() implies #[trigger] r[k].3
                    == DetectionSource::Deterministic by {
                    assert(r[k].3 == m[k].3);
                }
                assert forall|i: int| 0 <= i < ds.len() implies exists|k: int|
                    0 <= k < r.len() && #[trigger] r[k].0 == #[trigger] ds[i].0 by {
                    if i < pre.len() {
                        assert(ds[i] == pre[i]);
                        let k = choose|k: int| 0 <= k < m.len() && #[trigger] m[k].0 == #[trigger] pre[i].0;
                        assert(r[k].0 == m[k].0);
                    } else {
                        assert(r[p].0 == d.0);
                    }
                }
            },
            None => {
                assert(r == m.push(new_tech(d)));
                assert forall|i: int, j: int|
                    0 <= i < r.len() && 0 <= j < r.len() && i != j implies #[trigger] r[i].0
                    != #[trigger] r[j].0 by {
                    if i < m.len() && j < m.len() {
                        assert(r[i] == m[i] && r[j] == m[j]);
                    } else if i < m.len() {
                        assert(r[i] == m[i]);
                    } else {
                        assert(r[j] == m[j]);
                    }
                }
                assert forall|k: int| 0 <= k < r.len() implies #[trigger] r[k].3
                    == DetectionSource::Deterministic by {
                    if k < m.len() {
                        assert(r[k] == m[k]);
                    }
                }
                assert forall|i: int| 0 <= i < ds.len() implies exists|k: int|
                    0 <= k < r.len() && #[trigger] r[k].0 == #[trigger] ds[i].0 by {
                    if i < pre.len() {
                        assert(ds[i] == pre[i]);
                        let k = choose|k: int| 0 <= k < m.len() && #[trigger] m[k].0 == #[trigger] pre[i].0;
                        assert(r[k] == m[k]);
                    } else {
                        assert(r[m.len() as int].0 == d.0);
                    }
                }
            },
        }
    }
}

fn copy_strings(v: &Vec<String>) -> (r: Vec<String>)
    ensures
        r@.map_values(|s: String| s@) == v@.map_values(|s: String| s@),
{
    let mut r: Vec<String> = Vec::new();
    let mut i: usize = 0;
    while i < v.len()
        invariant
            i <= v.len(),
            r@.map_values(|s: String| s@) == v@.map_values(|s: String| s@).take(i as int),
        decreases v.len() - i,
    {
        let ghost prev = r@;
        r.push(owned(v[i].as_str()));
        assert(r@.map_values(|s: String| s@) =~= prev.map_values(|s: String| s@).push(
            v@[i as int]@,
        ));
        assert(v@.map_values(|s: String| s@).take(i + 1) =~= v@.map_values(|s: String| s@).take(
            i as int,
        ).push(v@[i as int]@));
        i = i + 1;
    }
    assert(v@.map_values(|s: String| s@).take(i as int) =~= v@.map_values(|s: String| s@));
    r
}

fn copy_opt(v: &Option<String>) -> (r: Option<String>)
    ensures
        match (r, *v) {
            (Some(a), Some(b)) => a@ == b@,
            (None, None) => true,
            _ => false,
        },
{
    match v {
        Some(s) => Some(owned(s.as_str())),
        None => None,
    }
}

/// Add detection `d` to the technologies found so far.
fn add_tech(techs: &mut Vec<DetectedTech>, d: &Detection)
    ensures
        techs_view(final(techs)@) == add_detection(techs_view(old(techs)@), det_view(*d)),
{
    let ghost m = techs_view(techs@);
    proof {
        lemma_tech_pos(m, d.tech@);
    }
    let mut k: usize = 0;
    while k < techs.len()
        invariant
            k <= techs.len(),
            m == techs_view(techs@),
            forall|j: int| 0 <= j < k ==> #[trigger] techs@[j].name@ != d.tech@,
        ensures
            k <= techs.len(),
            forall|j: int| 0 <= j < k ==> #[trigger] techs@[j].name@ != d.tech@,
            k < techs.len() ==> techs@[k as int].name@ == d.tech@,
        decreases techs.len() - k,
    {
        if str_eq(techs[k].name.as_str(), d.tech.as_str()) {
            break;
        }
        k = k + 1;
    }
    if k == techs.len() {
        let tech = DetectedTech {
            name: owned(d.tech.as_str()),
            category: owned(d.category.as_str()),
            evidence: {
                let mut e: Vec<String> = Vec::new();
                e.push(owned(d.evidence.as_str()));
                e
            },
            source: DetectionSource::Deterministic,
            confidence: d.confidence,
            version: copy_opt(&d.version),
        };
        assert(tech_pos(m, d.tech@) is None) by {
            if tech_pos(m, d.tech@) is Some {
                let kk = tech_pos(m, d.tech@)->0;
                assert(techs@[kk].name@ == d.tech@);
            }
        }
        let ghost before = techs@;
        techs.push(tech);
        assert(tech_view(tech).2 =~= seq![d.evidence@]);
        assert(techs_view(techs@) =~= techs_view(before).push(tech_view(tech)));
    } else {
        assert(tech_pos(m, d.tech@) == Some(k as int)) by {
            if tech_pos(m, d.tech@) is None {
                assert(m[k as int].0 == d.tech@);
            } else {
                let kk = tech_pos(m, d.tech@)->0;
                if kk < k {
                    assert(techs@[kk].name@ == d.tech@);
                }
                if kk > k {
                    assert(m[k as int].0 == d.tech@);
                }
            }
        }
        let old_t = &techs[k];
        let mut evidence = copy_strings(&old_t.evidence);
        let ghost ev0 = evidence@.map_values(|s: String| s@);
        if !contains_string(&old_t.evidence, d.evidence.as_str()) {
            evidence.push(owned(d.evidence.as_str()));
            assert(evidence@.map_values(|s: String| s@) =~= ev0.push(d.evidence@));
        }
        let confidence = if d.confidence.rank() > old_t.confidence.rank() {
            d.confidence
        } else {
            old_t.confidence
        };
        let version = match &d.version {
            Some(v) => Some(owned(v.as_str())),
            None => copy_opt(&old_t.version),
        };
        let tech = DetectedTech {
            name: owned(old_t.name.as_str()),
            category: owned(old_t.category.as_str()),
            evidence,
            source: old_t.source,
            confidence,
            version,
        };
        assert(tech_view(tech) == merge_tech(m[k as int], det_view(*d)));
        let ghost before = techs@;
        techs.set(k, tech);
        assert(techs_view(techs@) =~= techs_view(before).update(k as int, tech_view(tech)));
    }
}

/// The technologies after all detections, in order; a technology detected
/// again gathers the new evidence, the higher confidence and the new version.
pub fn apply_all(dets: &Vec<Detection>) -> (techs: Vec<DetectedTech>)
    ensures
        techs_view(techs@) == apply_detections(dets_view(dets@)),
{
    let mut techs: Vec<DetectedTech> = Vec::new();
    assert(techs_view(techs@) =~= Seq::<TechView>::empty());
    let mut i: usize = 0;
    while i < dets.len()
        invariant
            i <= dets.len(),
            techs_view(techs@) == apply_detections(dets_view(dets@).take(i as int)),
        decreases dets.len() - i,
    {
        assert(dets_view(dets@).take(i + 1).drop_last() =~= dets_view(dets@).take(i as int));
        add_tech(&mut techs, &dets[i]);
        i = i + 1;
    }
    assert(dets_view(dets@).take(i as int) =~= dets_view(dets@));
    techs
}

// ---------------------------------------------------------------------------
// Rule tables
// ---------------------------------------------------------------------------

/// Marker files: path, technology, category.
pub open spec fn marker_rules() -> Seq<(Seq<char>, Seq<char>, Seq<char>)> {
    seq![
        ("Cargo.toml"@, "rust"@, "language"@),
        ("tsconfig.json"@, "typescript"@, "language"@),
        ("go.mod"@, "golang"@, "language"@),
        ("requirements.txt"@, "python"@, "language"@),
        ("pyproject.toml"@, "python"@, "language"@),
        ("nest-cli.json"@, "nestjs"@, "framework"@),
        ("prisma/schema.prisma"@, "prisma"@, "database"@),
        ("package.json"@, "nodejs"@, "runtime"@),
    ]
}

/// Root files named `<prefix>.*`: prefix, technology, category.
pub open spec fn glob_rules() -> Seq<(Seq<char>, Seq<char>, Seq<char>)> {
    seq![
        ("next.config"@, "nextjs"@, "framework"@),
        ("playwright.config"@, "playwright"@, "testing"@),
        ("tailwind.config"@, "tailwind"@, "styling"@),
    ]
}

/// Marker directories: path, technology, category (all of high confidence).
pub open spec fn dir_rules() -> Seq<(Seq<char>, Seq<char>, Seq<char>)> {
    seq![(".github/workflows"@, "ci"@, "devops"@), (".gitlab-ci.yml"@, "ci"@, "devops"@)]
}

/// `package.json` dependencies: package, technology, category.
pub open spec fn npm_rules() -> Seq<(Seq<char>, Seq<char>, Seq<char>)> {
    seq![
        ("@nestjs/core"@, "nestjs"@, "framework"@),
        ("next"@, "nextjs"@, "framework"@),
        ("@playwright/test"@, "playwright"@, "testing"@),
        ("drizzle-orm"@, "drizzle"@, "database"@),
        ("prisma"@, "prisma"@, "database"@),
        ("tailwindcss"@, "tailwind"@, "styling"@),
    ]
}

/// `Cargo.toml` dependencies: crate, technology, category.
pub open spec fn cargo_rules() -> Seq<(Seq<char>, Seq<char>, Seq<char>)> {
    seq![
        ("sqlx"@, "sqlx"@, "database"@),
        ("tokio"@, "tokio"@, "async"@),
        ("actix-web"@, "actix"@, "web"@),
        ("axum"@, "axum"@, "web"@),
    ]
}

/// File extensions: extension, technology, category.
pub open spec fn extension_rules() -> Seq<(Seq<char>, Seq<char>, Seq<char>)> {
    seq![
        ("rs"@, "rust"@, "language"@),
        ("ts"@, "typescript"@, "language"@),
        ("tsx"@, "typescript"@, "language"@),
        ("py"@, "python"@, "language"@),
        ("go"@, "golang"@, "language"@),
        ("sql"@, "sql"@, "database"@),
    ]
}

/// The plain values of a rule table.
pub open spec fn rules_view(v: Seq<(&str, &str, &str)>) -> Seq<(Seq<char>, Seq<char>, Seq<char>)> {
    v.map_values(|r: (&str, &str, &str)| (r.0@, r.1@, r.2@))
}

fn table(rows: &[(&'static str, &'static str, &'static str)]) -> (r: Vec<
    (&'static str, &'static str, &'static str),
>)
    ensures
        r@ == rows@,
{
    let mut r: Vec<(&'static str, &'static str, &'static str)> = Vec::new();
    let mut i: usize = 0;
    while i < rows.len()
        invariant
            i <= rows.len(),
            r@ == rows@.take(i as int),
        decreases rows.len() - i,
    {
        r.push(rows[i]);
        assert(r@ =~= rows@.take(i + 1));
        i = i + 1;
    }
    assert(rows@.take(i as int) =~= rows@);
    r
}

fn marker_table() -> (r: Vec<(&'static str, &'static str, &'static str)>)
    ensures
        rules_view(r@) == marker_rules(),
{
    let r = table(
        &[
            ("Cargo.toml", "rust", "language"),
            ("tsconfig.json", "typescript", "language"),
            ("go.mod", "golang", "language"),
            ("requirements.txt", "python", "language"),
            ("pyproject.toml", "python", "language"),
            ("nest-cli.json", "nestjs", "framework"),
            ("prisma/schema.prisma", "prisma", "database"),
            ("package.json", "nodejs", "runtime"),
        ],
    );
    assert(rules_view(r@) =~= marker_rules());
    r
}

fn glob_table() -> (r: Vec<(&'static str, &'static str, &'static str)>)
    ensures
        rules_view(r@) == glob_rules(),
{
    let r = table(
        &[
            ("next.config", "nextjs", "framework"),
            ("playwright.config", "playwright", "testing"),
            ("tailwind.config", "tailwind", "styling"),
        ],
    );
    assert(rules_view(r@) =~= glob_rules());
    r
}

fn dir_table() -> (r: Vec<(&'static str, &'static str, &'static str)>)
    ensures
        rules_view(r@) == dir_rules(),
{
    let r = table(&[(".github/workflows", "ci", "devops"), (".gitlab-ci.yml", "ci", "devops")]);
    assert(rules_view(r@) =~= dir_rules());
    r
}

fn npm_table() -> (r: Vec<(&'static str, &'static str, &'static str)>)
    ensures
        rules_view(r@) == npm_rules(),
{
    let r = table(
        &[
            ("@nestjs/core", "nestjs", "framework"),
            ("next", "nextjs", "framework"),
            ("@playwright/test", "playwright", "testing"),
            ("drizzle-orm", "drizzle", "database"),
            ("prisma", "prisma", "database"),
            ("tailwindcss", "tailwind", "styling"),
        ],
    );
    assert(rules_view(r@) =~= npm_rules());
    r
}

fn cargo_table() -> (r: Vec<(&'static str, &'static str, &'static str)>)
    ensures
        rules_view(r@) == cargo_rules(),
{
    let r = table(
        &[
            ("sqlx", "sqlx", "database"),
            ("tokio", "tokio", "async"),
            ("actix-web", "actix", "web"),
            ("axum", "axum", "web"),
        ],
    );
    assert(rules_view(r@) =~= cargo_rules());
    r
}

fn extension_table() -> (r: Vec<(&'static str, &'static str, &'static str)>)
    ensures
        rules_view(r@) == extension_rules(),
{
    let r = table(
        &[
            ("rs", "rust", "language"),
            ("ts", "typescript", "language"),
            ("tsx", "typescript", "language"),
            ("py", "python", "language"),
            ("go", "golang", "language"),
            ("sql", "sql", "database"),
        ],
    );
    assert(rules_view(r@) =~= extension_rules());
    r
}

/// The paths, relative to the project root, whose kind scanning reads
/// (`ProjectFacts::probes`): the marker files, then the marker directories.
pub fn probed_paths() -> (r: Vec<&'static str>)
    ensures
        r@.map_values(|p: &str| p@) == marker_rules().map_values(
            |r: (Seq<char>, Seq<char>, Seq<char>)| r.0,
        ) + dir_rules().map_values(|r: (Seq<char>, Seq<char>, Seq<char>)| r.0),
{
    let markers = marker_table();
    let dirs = dir_table();
    let mut r: Vec<&'static str> = Vec::new();
    let mut i: usize = 0;
    while i < markers.len()
        invariant
            i <= markers.len(),
            rules_view(markers@) == marker_rules(),
            r@.map_values(|p: &str| p@) == marker_rules().map_values(
                |r: (Seq<char>, Seq<char>, Seq<char>)| r.0,
            ).take(i as int),
        decreases markers.len() - i,
    {
        let ghost prev = r@;
        r.push(markers[i].0);
        assert(r@.map_values(|p: &str| p@) =~= prev.map_values(|p: &str| p@).push(
            markers@[i as int].0@,
        ));
        assert(rules_view(markers@)[i as int].0 == markers@[i as int].0@);
        assert(marker_rules().map_values(|r: (Seq<char>, Seq<char>, Seq<char>)| r.0).take(i + 1)
            =~= marker_rules().map_values(|r: (Seq<char>, Seq<char>, Seq<char>)| r.0).take(
            i as int,
        ).push(markers@[i as int].0@));
        i = i + 1;
    }
    let ghost base = r@.map_values(|p: &str| p@);
    let mut j: usize = 0;
    while j < dirs.len()
        invariant
            j <= dirs.len(),
            rules_view(dirs@) == dir_rules(),
            base == marker_rules().map_values(|r: (Seq<char>, Seq<char>, Seq<char>)| r.0),
            r@.map_values(|p: &str| p@) == base + dir_rules().map_values(
                |r: (Seq<char>, Seq<char>, Seq<char>)| r.0,
            ).take(j as int),
        decreases dirs.len() - j,
    {
        let ghost prev = r@;
        r.push(dirs[j].0);
        assert(r@.map_values(|p: &str| p@) =~= prev.map_values(|p: &str| p@).push(
            dirs@[j as int].0@,
        ));
        assert(rules_view(dirs@)[j as int].0 == dirs@[j as int].0@);
        assert(dir_rules().map_values(|r: (Seq<char>, Seq<char>, Seq<char>)| r.0).take(j + 1)
            =~= dir_rules().map_values(|r: (Seq<char>, Seq<char>, Seq<char>)| r.0).take(
            j as int,
        ).push(dirs@[j as int].0@));
        j = j + 1;
    }
    assert(marker_rules().map_values(|r: (Seq<char>, Seq<char>, Seq<char>)| r.0).take(i as int)
        =~= marker_rules().map_values(|r: (Seq<char>, Seq<char>, Seq<char>)| r.0));
    assert(dir_rules().map_values(|r: (Seq<char>, Seq<char>, Seq<char>)| r.0).take(j as int)
        =~= dir_rules().map_values(|r: (Seq<char>, Seq<char>, Seq<char>)| r.0));
    r
}

// ---------------------------------------------------------------------------
// Detections
// ---------------------------------------------------------------------------

/// What path `p` is, by the probes: the first probe of it, else missing.
pub open spec fn probe_kind(probes: Seq<(String, PathKind)>, p: Seq<char>) -> PathKind
    decreases probes.len(),
{
    if probes.len() == 0 {
        PathKind::Missing
    } else if probes[0].0@ == p {
        probes[0].1
    } else {
        probe_kind(probes.drop_first(), p)
    }
}

/// A detection with no version.
pub open spec fn plain_det(
    tech: Seq<char>,
    category: Seq<char>,
    evidence: Seq<char>,
    confidence: Confidence,
) -> Seq<DetView> {
    seq![(tech, category, evidence, confidence, None)]
}

/// Marker files that exist.
pub open spec fn marker_dets(f: ProjectFacts) -> Seq<DetView> {
    flat_map(
        marker_rules(),
        |r: (Seq<char>, Seq<char>, Seq<char>)|
            if probe_kind(f.probes@, r.0) != PathKind::Missing {
                plain_det(r.1, r.2, "Found "@ + r.0, Confidence::High)
            } else {
                Seq::empty()
            },
    )
}

/// Some root entry is a file whose name starts with `prefix`.
pub open spec fn has_file_with_prefix(entries: Seq<EntryFacts>, prefix: Seq<char>) -> bool {
    exists|i: int|
        0 <= i < entries.len() && #[trigger] entries[i].kind == PathKind::File && starts_with(
            entries[i].name@,
            prefix,
        )
}

/// Root files named `<prefix>.*`.
pub open spec fn glob_dets(f: ProjectFacts) -> Seq<DetView> {
    flat_map(
        glob_rules(),
        |r: (Seq<char>, Seq<char>, Seq<char>)|
            if has_file_with_prefix(f.root_entries@, r.0) {
                plain_det(r.1, r.2, "Found "@ + r.0 + ".*"@, Confidence::High)
            } else {
                Seq::empty()
            },
    )
}

/// Marker directories that exist.
pub open spec fn dir_dets(f: ProjectFacts) -> Seq<DetView> {
    flat_map(
        dir_rules(),
        |r: (Seq<char>, Seq<char>, Seq<char>)|
            if probe_kind(f.probes@, r.0) == PathKind::Dir {
                plain_det(r.1, r.2, "Found "@ + r.0 + " directory"@, Confidence::High)
            } else {
                Seq::empty()
            },
    )
}

/// `s` escaped as one JSON Pointer reference token: `~` as `~0`, `/` as `~1`.
pub open spec fn pointer_token(s: Seq<char>) -> Seq<char> {
    flat_map(
        s,
        |c: char|
            if c == '~' {
                seq!['~', '0']
            } else if c == '/' {
                seq!['~', '1']
            } else {
                seq![c]
            },
    )
}

/// The version a dependency table gives `dep`: its string, or `*`.
pub open spec fn version_in(text: Seq<char>, section: Seq<char>, dep: Seq<char>) -> Seq<char> {
    match json_pointer_str(text, "/"@ + section + "/"@ + pointer_token(dep)) {
        Some(v) => v,
        None => "*"@,
    }
}

/// The version `package.json` gives dependency `dep`: from
/// `devDependencies` when listed there (it is read last), else from
/// `dependencies`; `None` when neither lists it.
pub open spec fn dep_version(text: Seq<char>, dep: Seq<char>) -> Option<Seq<char>> {
    let in_dev = match json_pointer_keys(text, "/devDependencies"@) {
        Some(ks) => ks.contains(dep),
        None => false,
    };
    let in_deps = match json_pointer_keys(text, "/dependencies"@) {
        Some(ks) => ks.contains(dep),
        None => false,
    };
    if in_dev {
        Some(version_in(text, "devDependencies"@, dep))
    } else if in_deps {
        Some(version_in(text, "dependencies"@, dep))
    } else {
        None
    }
}

/// `package.json` dependencies, when the file is JSON.
pub open spec fn npm_dets(f: ProjectFacts) -> Seq<DetView> {
    match f.package_json {
        Some(text) => if crate::json::json_parse_error(text@) is None {
            flat_map(
                npm_rules(),
                |r: (Seq<char>, Seq<char>, Seq<char>)|
                    match dep_version(text@, r.0) {
                        Some(v) => seq![
                            (r.1, r.2, "package.json dependency: "@ + r.0, Confidence::High, Some(v)),
                        ],
                        None => Seq::empty(),
                    },
            )
        } else {
            Seq::empty()
        },
        None => Seq::empty(),
    }
}

/// The name of a dependency line: what comes before its first `=`, trimmed.
pub open spec fn dep_line_name(t: Seq<char>) -> Seq<char> {
    trim(
        match find(t, seq!['=']) {
            Some(k) => t.take(k),
            None => t,
        },
    )
}

/// A line opening a dependency table.
pub open spec fn is_dep_header(t: Seq<char>) -> bool {
    starts_with(t, "[dependencies"@) || starts_with(t, "[workspace.dependencies"@) || starts_with(
        t,
        "[dev-dependencies"@,
    )
}

/// The dependency names in lines `i..` of a `Cargo.toml`, `in_deps` telling
/// whether line `i` is inside a dependency table.
pub open spec fn cargo_deps_from(ls: Seq<Seq<char>>, i: int, in_deps: bool) -> Seq<Seq<char>>
    decreases ls.len() - i,
{
    if i < 0 || i >= ls.len() {
        Seq::empty()
    } else {
        let t = trim(ls[i]);
        if is_dep_header(t) {
            cargo_deps_from(ls, i + 1, true)
        } else if starts_with(t, "["@) {
            cargo_deps_from(ls, i + 1, false)
        } else if in_deps {
            let name = dep_line_name(t);
            (if name.len() > 0 && !starts_with(name, "#"@) {
                seq![name]
            } else {
                Seq::empty()
            }) + cargo_deps_from(ls, i + 1, true)
        } else {
            cargo_deps_from(ls, i + 1, false)
        }
    }
}

/// The dependency names of a `Cargo.toml`, read line by line without a TOML
/// parser: the keys of the lines inside `[dependencies...]`,
/// `[workspace.dependencies...]` and `[dev-dependencies...]` tables.
pub open spec fn cargo_deps(text: Seq<char>) -> Seq<Seq<char>> {
    cargo_deps_from(raw_lines(text), 0, false)
}

/// `Cargo.toml` dependencies.
pub open spec fn cargo_dets(f: ProjectFacts) -> Seq<DetView> {
    match f.cargo_toml {
        Some(text) => flat_map(
            cargo_rules(),
            |r: (Seq<char>, Seq<char>, Seq<char>)|
                if cargo_deps(text@).contains(r.0) {
                    plain_det(r.1, r.2, "Cargo.toml dependency: "@ + r.0, Confidence::High)
                } else {
                    Seq::empty()
                },
        ),
        None => Seq::empty(),
    }
}

/// A root directory that the shallow scan enters: not hidden, and none of
/// `node_modules`, `target`, `vendor`, `dist`, `build`, `__pycache__`.
pub open spec fn is_scanned_dir(e: EntryFacts) -> bool {
    &&& e.kind == PathKind::Dir
    &&& !starts_with(e.name@, "."@)
    &&& e.name@ != "node_modules"@
    &&& e.name@ != "target"@
    &&& e.name@ != "vendor"@
    &&& e.name@ != "dist"@
    &&& e.name@ != "build"@
    &&& e.name@ != "__pycache__"@
}

/// The names of the files the shallow scan looks at: the root's files,
/// then the files of each scanned directory.
pub open spec fn scanned_files(entries: Seq<EntryFacts>) -> Seq<Seq<char>> {
    flat_map(
        entries,
        |e: EntryFacts|
            if e.kind == PathKind::File {
                seq![e.name@]
            } else {
                Seq::empty()
            },
    ) + flat_map(
        entries,
        |e: EntryFacts|
            if is_scanned_dir(e) {
                e.files@.map_values(|n: String| n@)
            } else {
                Seq::empty()
            },
    )
}

/// The part of a file name after its last `.`, when that dot is not its
/// first character.
pub open spec fn extension(name: Seq<char>) -> Option<Seq<char>>
    decreases name.len(),
{
    if name.len() <= 1 {
        None
    } else if name.last() == '.' {
        Some(Seq::empty())
    } else {
        match extension(name.drop_last()) {
            Some(e) => Some(e.push(name.last())),
            None => None,
        }
    }
}

/// The first rule of `rules` for `key`.
pub open spec fn first_rule(rules: Seq<(Seq<char>, Seq<char>, Seq<char>)>, key: Seq<char>) -> Option<
    (Seq<char>, Seq<char>, Seq<char>),
>
    decreases rules.len(),
{
    if rules.len() == 0 {
        None
    } else if rules[0].0 == key {
        Some(rules[0])
    } else {
        first_rule(rules.drop_first(), key)
    }
}

/// The first extension rule for `ext`.
pub open spec fn extension_rule(ext: Seq<char>) -> Option<(Seq<char>, Seq<char>, Seq<char>)> {
    first_rule(extension_rules(), ext)
}

/// Files with a known extension.
pub open spec fn extension_dets(f: ProjectFacts) -> Seq<DetView> {
    flat_map(
        scanned_files(f.root_entries@),
        |name: Seq<char>|
            match extension(name) {
                Some(ext) => match extension_rule(ext) {
                    Some(r) => plain_det(r.1, r.2, "Found ."@ + r.0 + " files"@, Confidence::Medium),
                    None => Seq::empty(),
                },
                None => Seq::empty(),
            },
    )
}

/// Every detection, in the order the checks run.
pub open spec fn all_detections(f: ProjectFacts) -> Seq<DetView> {
    marker_dets(f) + glob_dets(f) + dir_dets(f) + npm_dets(f) + cargo_dets(f) + extension_dets(f)
}

fn probe(probes: &Vec<(String, PathKind)>, p: &str) -> (r: PathKind)
    ensures
        r == probe_kind(probes@, p@),
{
    let mut i: usize = 0;
    assert(probes@.skip(0) =~= probes@);
    while i < probes.len()
        invariant
            i <= probes.len(),
            probe_kind(probes@, p@) == probe_kind(probes@.skip(i as int), p@),
        decreases probes.len() - i,
    {
        assert(probes@.skip(i as int)[0] == probes@[i as int]);
        assert(probes@.skip(i as int).drop_first() =~= probes@.skip(i + 1));
        if str_eq(probes[i].0.as_str(), p) {
            return probes[i].1;
        }
        i = i + 1;
    }
    assert(probes@.skip(i as int).len() == 0);
    PathKind::Missing
}

fn push_det(
    dets: &mut Vec<Detection>,
    tech: &str,
    category: &str,
    evidence: String,
    confidence: Confidence,
    version: Option<String>,
)
    ensures
        dets_view(final(dets)@) == dets_view(old(dets)@) + seq![
            (
                tech@,
                category@,
                evidence@,
                confidence,
                match version {
                    Some(v) => Some(v@),
                    None => None,
                },
            ),
        ],
{
    let ghost before = dets@;
    let d = Detection {
        tech: owned(tech),
        category: owned(category),
        evidence,
        confidence,
        version,
    };
    dets.push(d);
    assert(dets_view(dets@) =~= dets_view(before).push(det_view(d)));
}

fn push_marker_dets(dets: &mut Vec<Detection>, f: &ProjectFacts)
    ensures
        dets_view(final(dets)@) == dets_view(old(dets)@) + marker_dets(*f),
{
    let rules = marker_table();
    let ghost g = |r: (Seq<char>, Seq<char>, Seq<char>)|
        if probe_kind(f.probes@, r.0) != PathKind::Missing {
            plain_det(r.1, r.2, "Found "@ + r.0, Confidence::High)
        } else {
            Seq::empty()
        };
    let ghost d0 = dets_view(dets@);
    let mut i: usize = 0;
    while i < rules.len()
        invariant
            i <= rules.len(),
            rules_view(rules@) == marker_rules(),
            g == (|r: (Seq<char>, Seq<char>, Seq<char>)|
                if probe_kind(f.probes@, r.0) != PathKind::Missing {
                    plain_det(r.1, r.2, "Found "@ + r.0, Confidence::High)
                } else {
                    Seq::empty()
                }),
            dets_view(dets@) == d0 + flat_map(marker_rules().take(i as int), g),
        decreases rules.len() - i,
    {
        proof {
            lemma_flat_map_take(marker_rules(), g, i as int);
        }
        let (path, tech, category) = rules[i];
        assert(marker_rules()[i as int] == (path@, tech@, category@));
        if probe(&f.probes, path) != PathKind::Missing {
            push_det(dets, tech, category, concat2("Found ", path), Confidence::High, None);
        } else {
            assert(dets_view(dets@) =~= dets_view(dets@) + Seq::<DetView>::empty());
        }
        i = i + 1;
    }
    proof {
        lemma_flat_map_full(marker_rules(), g);
    }
}

fn file_with_prefix(entries: &Vec<EntryFacts>, prefix: &str) -> (r: bool)
    ensures
        r == has_file_with_prefix(entries@, prefix@),
{
    let pc = chars_of(prefix);
    let mut i: usize = 0;
    while i < entries.len()
        invariant
            i <= entries.len(),
            pc@ == prefix@,
            forall|k: int|
                0 <= k < i ==> !(#[trigger] entries@[k].kind == PathKind::File && starts_with(
                    entries@[k].name@,
                    prefix@,
                )),
        decreases entries.len() - i,
    {
        let e = &entries[i];
        if e.kind == PathKind::File {
            let nc = chars_of(e.name.as_str());
            if matches_at(&nc, &pc, 0) {
                return true;
            }
        }
        i = i + 1;
    }
    false
}

fn push_glob_dets(dets: &mut Vec<Detection>, f: &ProjectFacts)
    ensures
        dets_view(final(dets)@) == dets_view(old(dets)@) + glob_dets(*f),
{
    let rules = glob_table();
    let ghost g = |r: (Seq<char>, Seq<char>, Seq<char>)|
        if has_file_with_prefix(f.root_entries@, r.0) {
            plain_det(r.1, r.2, "Found "@ + r.0 + ".*"@, Confidence::High)
        } else {
            Seq::empty()
        };
    let ghost d0 = dets_view(dets@);
    let mut i: usize = 0;
    while i < rules.len()
        invariant
            i <= rules.len(),
            rules_view(rules@) == glob_rules(),
            g == (|r: (Seq<char>, Seq<char>, Seq<char>)|
                if has_file_with_prefix(f.root_entries@, r.0) {
                    plain_det(r.1, r.2, "Found "@ + r.0 + ".*"@, Confidence::High)
                } else {
                    Seq::empty()
                }),
            dets_view(dets@) == d0 + flat_map(glob_rules().take(i as int), g),
        decreases rules.len() - i,
    {
        proof {
            lemma_flat_map_take(glob_rules(), g, i as int);
        }
        let (prefix, tech, category) = rules[i];
        assert(glob_rules()[i as int] == (prefix@, tech@, category@));
        if file_with_prefix(&f.root_entries, prefix) {
            push_det(dets, tech, category, concat3("Found ", prefix, ".*"), Confidence::High, None);
        } else {
            assert(dets_view(dets@) =~= dets_view(dets@) + Seq::<DetView>::empty());
        }
        i = i + 1;
    }
    proof {
        lemma_flat_map_full(glob_rules(), g);
    }
}

fn push_dir_dets(dets: &mut Vec<Detection>, f: &ProjectFacts)
    ensures
        dets_view(final(dets)@) == dets_view(old(dets)@) + dir_dets(*f),
{
    let rules = dir_table();
    let ghost g = |r: (Seq<char>, Seq<char>, Seq<char>)|
        if probe_kind(f.probes@, r.0) == PathKind::Dir {
            plain_det(r.1, r.2, "Found "@ + r.0 + " directory"@, Confidence::High)
        } else {
            Seq::empty()
        };
    let ghost d0 = dets_view(dets@);
    let mut i: usize = 0;
    while i < rules.len()
        invariant
            i <= rules.len(),
            rules_view(rules@) == dir_rules(),
            g == (|r: (Seq<char>, Seq<char>, Seq<char>)|
                if probe_kind(f.probes@, r.0) == PathKind::Dir {
                    plain_det(r.1, r.2, "Found "@ + r.0 + " directory"@, Confidence::High)
                } else {
                    Seq::empty()
                }),
            dets_view(dets@) == d0 + flat_map(dir_rules().take(i as int), g),
        decreases rules.len() - i,
    {
        proof {
            lemma_flat_map_take(dir_rules(), g, i as int);
        }
        let (path, tech, category) = rules[i];
        assert(dir_rules()[i as int] == (path@, tech@, category@));
        if probe(&f.probes, path) == PathKind::Dir {
            push_det(
                dets,
                tech,
                category,
                concat3("Found ", path, " directory"),
                Confidence::High,
                None,
            );
        } else {
            assert(dets_view(dets@) =~= dets_view(dets@) + Seq::<DetView>::empty());
        }
        i = i + 1;
    }
    proof {
        lemma_flat_map_full(dir_rules(), g);
    }
}

/// `s` escaped as one JSON Pointer reference token.
fn escape_pointer_token(s: &str) -> (r: String)
    ensures
        r@ == pointer_token(s@),
{
    let cs = chars_of(s);
    let ghost f = |c: char|
        if c == '~' {
            seq!['~', '0']
        } else if c == '/' {
            seq!['~', '1']
        } else {
            seq![c]
        };
    let mut r = String::new();
    let mut i: usize = 0;
    while i < cs.len()
        invariant
            i <= cs.len(),
            cs@ == s@,
            f == (|c: char|
                if c == '~' {
                    seq!['~', '0']
                } else if c == '/' {
                    seq!['~', '1']
                } else {
                    seq![c]
                }),
            r@ == flat_map(s@.take(i as int), f),
        decreases cs.len() - i,
    {
        proof {
            lemma_flat_map_take(s@, f, i as int);
        }
        let c = cs[i];
        if c == '~' {
            push_str(&mut r, "~0");
            assert("~0"@ =~= seq!['~', '0']) by {
                reveal_strlit("~0");
            }
        } else if c == '/' {
            push_str(&mut r, "~1");
            assert("~1"@ =~= seq!['~', '1']) by {
                reveal_strlit("~1");
            }
        } else {
            let ghost before = r@;
            r.append(string_from_chars(&[c]).as_str());
            assert(seq![c] =~= [c]@) by {}
            assert(r@ =~= before + seq![c]);
        }
        i = i + 1;
    }
    proof {
        lemma_flat_map_full(s@, f);
    }
    r
}

fn version_of(text: &str, section: &str, dep: &str) -> (r: String)
    ensures
        r@ == version_in(text@, section@, dep@),
{
    let mut pointer = concat3("/", section, "/");
    push_str(&mut pointer, escape_pointer_token(dep).as_str());
    match json_str_at(text, pointer.as_str()) {
        Some(v) => v,
        None => owned("*"),
    }
}

fn keys_contain(text: &str, pointer: &str, dep: &str) -> (r: bool)
    ensures
        r == match json_pointer_keys(text@, pointer@) {
            Some(ks) => ks.contains(dep@),
            None => false,
        },
{
    match json_keys_at(text, pointer) {
        Some(ks) => contains_string(&ks, dep),
        None => false,
    }
}

fn version_of_dep(text: &str, dep: &str) -> (r: Option<String>)
    ensures
        match r {
            Some(v) => dep_version(text@, dep@) == Some(v@),
            None => dep_version(text@, dep@) is None,
        },
{
    if keys_contain(text, "/devDependencies", dep) {
        Some(version_of(text, "devDependencies", dep))
    } else if keys_contain(text, "/dependencies", dep) {
        Some(version_of(text, "dependencies", dep))
    } else {
        None
    }
}

fn push_npm_dets(dets: &mut Vec<Detection>, f: &ProjectFacts)
    ensures
        dets_view(final(dets)@) == dets_view(old(dets)@) + npm_dets(*f),
{
    let text = match &f.package_json {
        Some(t) => t.as_str(),
        None => {
            assert(dets_view(dets@) =~= dets_view(dets@) + Seq::<DetView>::empty());
            return;
        },
    };
    if crate::json::json_error(text).is_some() {
        assert(dets_view(dets@) =~= dets_view(dets@) + Seq::<DetView>::empty());
        return;
    }
    let rules = npm_table();
    let ghost g = |r: (Seq<char>, Seq<char>, Seq<char>)|
        match dep_version(text@, r.0) {
            Some(v) => seq![(r.1, r.2, "package.json dependency: "@ + r.0, Confidence::High, Some(v))],
            None => Seq::<DetView>::empty(),
        };
    let ghost d0 = dets_view(dets@);
    let mut i: usize = 0;
    while i < rules.len()
        invariant
            i <= rules.len(),
            rules_view(rules@) == npm_rules(),
            g == (|r: (Seq<char>, Seq<char>, Seq<char>)|
                match dep_version(text@, r.0) {
                    Some(v) => seq![
                        (r.1, r.2, "package.json dependency: "@ + r.0, Confidence::High, Some(v)),
                    ],
                    None => Seq::<DetView>::empty(),
                }),
            dets_view(dets@) == d0 + flat_map(npm_rules().take(i as int), g),
        decreases rules.len() - i,
    {
        proof {
            lemma_flat_map_take(npm_rules(), g, i as int);
        }
        let (dep, tech, category) = rules[i];
        assert(npm_rules()[i as int] == (dep@, tech@, category@));
        match version_of_dep(text, dep) {
            Some(v) => {
                push_det(
                    dets,
                    tech,
                    category,
                    concat2("package.json dependency: ", dep),
                    Confidence::High,
                    Some(v),
                );
            },
            None => {
                assert(dets_view(dets@) =~= dets_view(dets@) + Seq::<DetView>::empty());
            },
        }
        i = i + 1;
    }
    proof {
        lemma_flat_map_full(npm_rules(), g);
    }
}

/// The dependency names of a `Cargo.toml`, read line by line.
pub fn parse_cargo_toml_deps(text: &str) -> (r: Vec<String>)
    ensures
        r@.map_values(|d: String| d@) == cargo_deps(text@),
{
    let cs = chars_of(text);
    let lines = raw_lines_of(&cs);
    let ghost ls = views(lines@);
    let h1 = chars_of("[dependencies");
    let h2 = chars_of("[workspace.dependencies");
    let h3 = chars_of("[dev-dependencies");
    let open = chars_of("[");
    let hash = chars_of("#");
    let mut eq: Vec<char> = Vec::new();
    eq.push('=');
    let mut deps: Vec<String> = Vec::new();
    let mut in_deps = false;
    let mut i: usize = 0;
    while i < lines.len()
        invariant
            i <= lines.len(),
            ls == views(lines@),
            ls == raw_lines(text@),
            h1@ == "[dependencies"@,
            h2@ == "[workspace.dependencies"@,
            h3@ == "[dev-dependencies"@,
            open@ == "["@,
            hash@ == "#"@,
            eq@ == seq!['='],
            deps@.map_values(|d: String| d@) + cargo_deps_from(ls, i as int, in_deps)
                == cargo_deps(text@),
        decreases lines.len() - i,
    {
        let ghost before = deps@.map_values(|d: String| d@);
        let t = trim_chars(&lines[i]);
        assert(t@ == trim(ls[i as int]));
        if matches_at(&t, &h1, 0) || matches_at(&t, &h2, 0) || matches_at(&t, &h3, 0) {
            in_deps = true;
        } else if matches_at(&t, &open, 0) {
            in_deps = false;
        } else if in_deps {
            let head = match find_chars(&t, &eq, 0) {
                Some(k) => crate::text::subvec(&t, 0, k),
                None => crate::text::subvec(&t, 0, t.len()),
            };
            proof {
                assert(t@.subrange(0, t@.len() as int) =~= t@);
            }
            let name = trim_chars(&head);
            assert(name@ == dep_line_name(t@));
            if name.len() > 0 && !matches_at(&name, &hash, 0) {
                deps.push(string_from_chars(name.as_slice()));
                assert(deps@.map_values(|d: String| d@) =~= before + seq![name@]);
            } else {
                assert(deps@.map_values(|d: String| d@) =~= before + Seq::<Seq<char>>::empty());
            }
        }
        i = i + 1;
    }
    deps
}

fn push_cargo_dets(dets: &mut Vec<Detection>, f: &ProjectFacts)
    ensures
        dets_view(final(dets)@) == dets_view(old(dets)@) + cargo_dets(*f),
{
    let text = match &f.cargo_toml {
        Some(t) => t.as_str(),
        None => {
            assert(dets_view(dets@) =~= dets_view(dets@) + Seq::<DetView>::empty());
            return;
        },
    };
    let deps = parse_cargo_toml_deps(text);
    let rules = cargo_table();
    let ghost g = |r: (Seq<char>, Seq<char>, Seq<char>)|
        if cargo_deps(text@).contains(r.0) {
            plain_det(r.1, r.2, "Cargo.toml dependency: "@ + r.0, Confidence::High)
        } else {
            Seq::empty()
        };
    let ghost d0 = dets_view(dets@);
    let mut i: usize = 0;
    while i < rules.len()
        invariant
            i <= rules.len(),
            rules_view(rules@) == cargo_rules(),
            deps@.map_values(|d: String| d@) == cargo_deps(text@),
            g == (|r: (Seq<char>, Seq<char>, Seq<char>)|
                if cargo_deps(text@).contains(r.0) {
                    plain_det(r.1, r.2, "Cargo.toml dependency: "@ + r.0, Confidence::High)
                } else {
                    Seq::empty()
                }),
            dets_view(dets@) == d0 + flat_map(cargo_rules().take(i as int), g),
        decreases rules.len() - i,
    {
        proof {
            lemma_flat_map_take(cargo_rules(), g, i as int);
        }
        let (dep, tech, category) = rules[i];
        assert(cargo_rules()[i as int] == (dep@, tech@, category@));
        if contains_string(&deps, dep) {
            push_det(
                dets,
                tech,
                category,
                concat2("Cargo.toml dependency: ", dep),
                Confidence::High,
                None,
            );
        } else {
            assert(dets_view(dets@) =~= dets_view(dets@) + Seq::<DetView>::empty());
        }
        i = i + 1;
    }
    proof {
        lemma_flat_map_full(cargo_rules(), g);
    }
}

/// The extension of a file name (see `extension`).
pub(crate) fn extension_of(name: &str) -> (r: Option<String>)
    ensures
        match r {
            Some(e) => extension(name@) == Some(e@),
            None => extension(name@) is None,
        },
{
    let cs = chars_of(name);
    let n = cs.len();
    // the position just after the last dot, if any dot stands past the start
    let mut k: usize = n;
    while k > 0 && cs[k - 1] != '.'
        invariant
            k <= n,
            n == cs.len(),
            cs@ == name@,
            forall|j: int| k <= j < n ==> cs@[j] != '.',
        decreases k,
    {
        k = k - 1;
    }
    proof {
        lemma_extension(name@, k as int);
    }
    if k <= 1 {
        None
    } else {
        Some(string_from_chars(crate::text::subvec(&cs, k, n).as_slice()))
    }
}

/// With `k` just after the last dot of `s` (0 when there is none), the
/// extension is what follows it, when that dot is not the first character.
proof fn lemma_extension(s: Seq<char>, k: int)
    requires
        0 <= k <= s.len(),
        forall|j: int| k <= j < s.len() ==> s[j] != '.',
        k > 0 ==> s[k - 1] == '.',
    ensures
        extension(s) == if k <= 1 {
            None::<Seq<char>>
        } else {
            Some(s.subrange(k, s.len() as int))
        },
    decreases s.len(),
{
    if s.len() <= 1 {
    } else if s.last() == '.' {
        assert(k == s.len());
        assert(s.subrange(k, s.len() as int) =~= Seq::<char>::empty());
    } else {
        assert(k < s.len());
        let t = s.drop_last();
        lemma_extension(t, k);
        if k > 1 {
            assert(s.subrange(k, s.len() as int) =~= t.subrange(k, t.len() as int).push(s.last()));
        }
    }
}

fn extension_rule_of(rules: &Vec<(&'static str, &'static str, &'static str)>, ext: &str) -> (r:
    Option<(&'static str, &'static str, &'static str)>)
    requires
        rules_view(rules@) == extension_rules(),
    ensures
        match r {
            Some(t) => extension_rule(ext@) == Some((t.0@, t.1@, t.2@)),
            None => extension_rule(ext@) is None,
        },
{
    let mut i: usize = 0;
    assert(extension_rules().skip(0) =~= extension_rules());
    while i < rules.len()
        invariant
            i <= rules.len(),
            rules_view(rules@) == extension_rules(),
            extension_rule(ext@) == first_rule(extension_rules().skip(i as int), ext@),
        decreases rules.len() - i,
    {
        assert(extension_rules().skip(i as int)[0] == rules_view(rules@)[i as int]);
        assert(extension_rules().skip(i as int).drop_first() =~= extension_rules().skip(i + 1));
        if str_eq(rules[i].0, ext) {
            return Some(rules[i]);
        }
        i = i + 1;
    }
    assert(extension_rules().skip(i as int).len() == 0);
    None
}

fn push_file_det(
    dets: &mut Vec<Detection>,
    rules: &Vec<(&'static str, &'static str, &'static str)>,
    name: &str,
)
    requires
        rules_view(rules@) == extension_rules(),
    ensures
        dets_view(final(dets)@) == dets_view(old(dets)@) + match extension(name@) {
            Some(ext) => match extension_rule(ext) {
                Some(r) => plain_det(r.1, r.2, "Found ."@ + r.0 + " files"@, Confidence::Medium),
                None => Seq::empty(),
            },
            None => Seq::empty(),
        },
{
    match extension_of(name) {
        Some(ext) => match extension_rule_of(rules, ext.as_str()) {
            Some((e, tech, category)) => {
                push_det(dets, tech, category, concat3("Found .", e, " files"), Confidence::Medium, None);
            },
            None => {
                assert(dets_view(dets@) =~= dets_view(dets@) + Seq::<DetView>::empty());
            },
        },
        None => {
            assert(dets_view(dets@) =~= dets_view(dets@) + Seq::<DetView>::empty());
        },
    }
}

fn is_scanned(e: &EntryFacts) -> (r: bool)
    ensures
        r == is_scanned_dir(*e),
{
    let name = e.name.as_str();
    let nc = chars_of(name);
    let dot = chars_of(".");
    e.kind == PathKind::Dir && !matches_at(&nc, &dot, 0) && !str_eq(name, "node_modules")
        && !str_eq(name, "target") && !str_eq(name, "vendor") && !str_eq(name, "dist") && !str_eq(
        name,
        "build",
    ) && !str_eq(name, "__pycache__")
}

fn push_extension_dets(dets: &mut Vec<Detection>, f: &ProjectFacts)
    ensures
        dets_view(final(dets)@) == dets_view(old(dets)@) + extension_dets(*f),
{
    let rules = extension_table();
    let ghost g = |name: Seq<char>|
        match extension(name) {
            Some(ext) => match extension_rule(ext) {
                Some(r) => plain_det(r.1, r.2, "Found ."@ + r.0 + " files"@, Confidence::Medium),
                None => Seq::empty(),
            },
            None => Seq::empty(),
        };
    let ghost es = f.root_entries@;
    let ghost root_files = flat_map(
        es,
        |e: EntryFacts|
            if e.kind == PathKind::File {
                seq![e.name@]
            } else {
                Seq::empty()
            },
    );
    let ghost sub_files = flat_map(
        es,
        |e: EntryFacts|
            if is_scanned_dir(e) {
                e.files@.map_values(|n: String| n@)
            } else {
                Seq::empty()
            },
    );
    let ghost fr = |e: EntryFacts|
        if e.kind == PathKind::File {
            seq![e.name@]
        } else {
            Seq::empty()
        };
    let ghost fs = |e: EntryFacts|
        if is_scanned_dir(e) {
            e.files@.map_values(|n: String| n@)
        } else {
            Seq::empty()
        };
    let ghost d0 = dets_view(dets@);
    // the files of the root
    let mut i: usize = 0;
    while i < f.root_entries.len()
        invariant
            i <= f.root_entries.len(),
            es == f.root_entries@,
            rules_view(rules@) == extension_rules(),
            fr == (|e: EntryFacts|
                if e.kind == PathKind::File {
                    seq![e.name@]
                } else {
                    Seq::empty()
                }),
            g == (|name: Seq<char>|
                match extension(name) {
                    Some(ext) => match extension_rule(ext) {
                        Some(r) => plain_det(
                            r.1,
                            r.2,
                            "Found ."@ + r.0 + " files"@,
                            Confidence::Medium,
                        ),
                        None => Seq::empty(),
                    },
                    None => Seq::empty(),
                }),
            dets_view(dets@) == d0 + flat_map(flat_map(es.take(i as int), fr), g),
        decreases f.root_entries.len() - i,
    {
        proof {
            lemma_flat_map_take(es, fr, i as int);
        }
        let e = &f.root_entries[i];
        if e.kind == PathKind::File {
            push_file_det(dets, &rules, e.name.as_str());
            proof {
                lemma_flat_map_append_one(flat_map(es.take(i as int), fr), e.name@, g);
                assert(flat_map(es.take(i as int), fr) + fr(*e) =~= flat_map(
                    es.take(i as int),
                    fr,
                ).push(e.name@));
            }
        } else {
            assert(flat_map(es.take(i as int), fr) + fr(*e) =~= flat_map(es.take(i as int), fr));
        }
        i = i + 1;
    }
    proof {
        lemma_flat_map_full(es, fr);
    }
    let ghost d1 = dets_view(dets@);
    // the files of each scanned directory
    let mut j: usize = 0;
    while j < f.root_entries.len()
        invariant
            j <= f.root_entries.len(),
            es == f.root_entries@,
            rules_view(rules@) == extension_rules(),
            fr == (|e: EntryFacts|
                if e.kind == PathKind::File {
                    seq![e.name@]
                } else {
                    Seq::empty()
                }),
            fs == (|e: EntryFacts|
                if is_scanned_dir(e) {
                    e.files@.map_values(|n: String| n@)
                } else {
                    Seq::empty()
                }),
            g == (|name: Seq<char>|
                match extension(name) {
                    Some(ext) => match extension_rule(ext) {
                        Some(r) => plain_det(
                            r.1,
                            r.2,
                            "Found ."@ + r.0 + " files"@,
                            Confidence::Medium,
                        ),
                        None => Seq::empty(),
                    },
                    None => Seq::empty(),
                }),
            d1 == d0 + flat_map(flat_map(es, fr), g),
            dets_view(dets@) == d1 + flat_map(flat_map(es.take(j as int), fs), g),
        decreases f.root_entries.len() - j,
    {
        proof {
            lemma_flat_map_take(es, fs, j as int);
        }
        let e = &f.root_entries[j];
        if is_scanned(e) {
            let ghost base = flat_map(es.take(j as int), fs);
            let mut k: usize = 0;
            while k < e.files.len()
                invariant
                    k <= e.files.len(),
                    rules_view(rules@) == extension_rules(),
                    g == (|name: Seq<char>|
                        match extension(name) {
                            Some(ext) => match extension_rule(ext) {
                                Some(r) => plain_det(
                                    r.1,
                                    r.2,
                                    "Found ."@ + r.0 + " files"@,
                                    Confidence::Medium,
                                ),
                                None => Seq::empty(),
                            },
                            None => Seq::empty(),
                        }),
                    dets_view(dets@) == d1 + flat_map(
                        base + e.files@.map_values(|n: String| n@).take(k as int),
                        g,
                    ),
                decreases e.files.len() - k,
            {
                let ghost pre = base + e.files@.map_values(|n: String| n@).take(k as int);
                push_file_det(dets, &rules, e.files[k].as_str());
                proof {
                    lemma_flat_map_append_one(pre, e.files@[k as int]@, g);
                    assert(base + e.files@.map_values(|n: String| n@).take(k + 1) =~= pre.push(
                        e.files@[k as int]@,
                    ));
                }
                k = k + 1;
            }
            assert(e.files@.map_values(|n: String| n@).take(k as int) =~= e.files@.map_values(
                |n: String| n@,
            ));
        } else {
            assert(flat_map(es.take(j as int), fs) + fs(*e) =~= flat_map(es.take(j as int), fs));
        }
        j = j + 1;
    }
    proof {
        lemma_flat_map_full(es, fs);
        crate::seqs::lemma_flat_map_concat(flat_map(es, fr), flat_map(es, fs), g);
    }
}

/// `flat_map` over a sequence extended by one element.
proof fn lemma_flat_map_append_one(s: Seq<Seq<char>>, x: Seq<char>, g: spec_fn(Seq<char>) -> Seq<DetView>)
    ensures
        flat_map(s.push(x), g) == flat_map(s, g) + g(x),
{
    assert(s.push(x).drop_last() =~= s);
}

/// Scan a project for technologies using filesystem markers: marker files,
/// `<prefix>.*` files in the root, marker directories, `package.json` and
/// `Cargo.toml` dependencies, and the extensions of the files in the root and
/// in the directories directly under it (skipping hidden and build
/// directories). Each technology appears once, gathering all its evidence.
pub fn scan(facts: &ProjectFacts) -> (techs: Vec<DetectedTech>)
    ensures
        techs_view(techs@) == apply_detections(all_detections(*facts)),
{
    let mut dets: Vec<Detection> = Vec::new();
    assert(dets_view(dets@) =~= Seq::<DetView>::empty());
    push_marker_dets(&mut dets, facts);
    push_glob_dets(&mut dets, facts);
    push_dir_dets(&mut dets, facts);
    push_npm_dets(&mut dets, facts);
    push_cargo_dets(&mut dets, facts);
    push_extension_dets(&mut dets, facts);
    assert(dets_view(dets@) =~= all_detections(*facts));
    apply_all(&dets)
}

} // verus!
