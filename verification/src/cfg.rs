//! Distribution target configuration and the resolution of inheritance
//! between targets.
use crate::graph::{
    add_edge, add_node, graph_edges, graph_nodes, has_edge, is_cycle, is_topological_order,
    lemma_has_edge_push, lemma_topological_order_acyclic, new_graph, toposort, toposort_order,
};
use crate::text::{signed_decimal, signed_decimal_string, str_eq};
use vstd::prelude::*;

verus! {

/// A format-specific field's value, holding what the packagers read of a TOML
/// value: its text for a string, its number for an integer, and, for any other
/// kind of value, its TOML rendering.
#[derive(Debug)]
pub enum ExtraValue {
    Str(String),
    Integer(i64),
    Other(String),
}

/// The mathematical form of an [`ExtraValue`].
pub enum ExtraValueView {
    Str(Seq<char>),
    Integer(i64),
    Other(Seq<char>),
}

impl View for ExtraValue {
    type V = ExtraValueView;

    open spec fn view(&self) -> ExtraValueView {
        match self {
            ExtraValue::Str(s) => ExtraValueView::Str(s@),
            ExtraValue::Integer(i) => ExtraValueView::Integer(*i),
            ExtraValue::Other(s) => ExtraValueView::Other(s@),
        }
    }
}

/// What `toml::Value`'s `Display` gives for a string value.
pub uninterp spec fn toml_string_display(s: Seq<char>) -> Seq<char>;

/// `toml::Value::String(s).to_string()`: the TOML rendering of a string, as
/// the `toml` crate writes it (quoted, with escapes). The rendering itself is
/// only named, not stated.
#[verifier::external_body]
fn render_toml_string(s: &str) -> (r: String)
    ensures
        r@ == toml_string_display(s@),
{
    toml::Value::String(s.to_string()).to_string()
}

/// The TOML rendering of a value (what `to_string` gives on a `toml::Value`).
pub open spec fn toml_display(v: ExtraValueView) -> Seq<char> {
    match v {
        ExtraValueView::Str(s) => toml_string_display(s),
        ExtraValueView::Integer(i) => signed_decimal(i as int),
        ExtraValueView::Other(r) => r,
    }
}

impl ExtraValue {
    /// The TOML rendering of this value.
    pub fn to_toml_string(&self) -> (r: String)
        ensures
            r@ == toml_display(self@),
    {
        match self {
            ExtraValue::Str(s) => render_toml_string(s.as_str()),
            ExtraValue::Integer(i) => signed_decimal_string(*i),
            ExtraValue::Other(s) => s.clone(),
        }
    }

    /// A copy of this value.
    pub fn copy(&self) -> (r: ExtraValue)
        ensures
            r@ == self@,
    {
        match self {
            ExtraValue::Str(s) => ExtraValue::Str(s.clone()),
            ExtraValue::Integer(i) => ExtraValue::Integer(*i),
            ExtraValue::Other(s) => ExtraValue::Other(s.clone()),
        }
    }

    /// The text of a string value (`toml::Value::as_str`).
    pub fn as_str(&self) -> (r: Option<&str>)
        ensures
            match r {
                Some(s) => self@ == ExtraValueView::Str(s@),
                None => !(self@ is Str),
            },
    {
        match self {
            ExtraValue::Str(s) => Some(s.as_str()),
            _ => None,
        }
    }

    /// The number of an integer value (`toml::Value::as_integer`).
    pub fn as_integer(&self) -> (r: Option<i64>)
        ensures
            match r {
                Some(i) => self@ == ExtraValueView::Integer(i),
                None => !(self@ is Integer),
            },
    {
        match self {
            ExtraValue::Integer(i) => Some(*i),
            _ => None,
        }
    }
}

/// The map that a list of entries stands for: a later entry for a key
/// replaces an earlier one.
pub open spec fn entries_map(es: Seq<(String, ExtraValue)>) -> Map<Seq<char>, ExtraValueView>
    decreases es.len(),
{
    if es.len() == 0 {
        Map::empty()
    } else {
        entries_map(es.drop_last()).insert(es.last().0@, es.last().1@)
    }
}

proof fn lemma_entries_map_found(es: Seq<(String, ExtraValue)>, i: int, k: Seq<char>)
    requires
        0 <= i < es.len(),
        es[i].0@ == k,
        forall|j: int| i < j < es.len() ==> (#[trigger] es[j]).0@ != k,
    ensures
        entries_map(es).contains_key(k),
        entries_map(es)[k] == es[i].1@,
    decreases es.len(),
{
    if i < es.len() - 1 {
        assert(es.last() == es[es.len() - 1]);
        lemma_entries_map_found(es.drop_last(), i, k);
    }
}

proof fn lemma_entries_map_absent(es: Seq<(String, ExtraValue)>, k: Seq<char>)
    requires
        forall|j: int| 0 <= j < es.len() ==> (#[trigger] es[j]).0@ != k,
    ensures
        !entries_map(es).contains_key(k),
    decreases es.len(),
{
    if es.len() > 0 {
        assert(es.last() == es[es.len() - 1]);
        lemma_entries_map_absent(es.drop_last(), k);
    }
}

/// The format-specific fields of a target: a map from field name to value.
#[derive(Debug)]
pub struct ExtraFields {
    entries: Vec<(String, ExtraValue)>,
}

impl View for ExtraFields {
    type V = Map<Seq<char>, ExtraValueView>;

    closed spec fn view(&self) -> Map<Seq<char>, ExtraValueView> {
        entries_map(self.entries@)
    }
}

impl ExtraFields {
    /// No fields.
    pub fn new() -> (r: ExtraFields)
        ensures
            r@ == Map::<Seq<char>, ExtraValueView>::empty(),
    {
        ExtraFields { entries: Vec::new() }
    }

    /// Sets the field `key` to `value`, replacing any earlier value.
    pub fn insert(&mut self, key: String, value: ExtraValue)
        ensures
            final(self)@ == old(self)@.insert(key@, value@),
    {
        let ghost k = key@;
        let ghost v = value@;
        self.entries.push((key, value));
        proof {
            assert(self.entries@.drop_last() =~= old(self).entries@);
        }
    }

    /// The value of the field `key`, if it is set.
    pub fn get(&self, key: &str) -> (r: Option<&ExtraValue>)
        ensures
            match r {
                Some(v) => self@.contains_key(key@) && self@[key@] == v@,
                None => !self@.contains_key(key@),
            },
    {
        let mut i = self.entries.len();
        while i > 0
            invariant
                i <= self.entries.len(),
                forall|j: int| i <= j < self.entries@.len() ==> (#[trigger] self.entries@[j]).0@ != key@,
            decreases i,
        {
            if str_eq(self.entries[i - 1].0.as_str(), key) {
                proof {
                    lemma_entries_map_found(self.entries@, i - 1, key@);
                }
                return Some(&self.entries[i - 1].1);
            }
            i = i - 1;
        }
        proof {
            lemma_entries_map_absent(self.entries@, key@);
        }
        None
    }

    /// The text of the field `key` when it is set to a string.
    pub fn get_str(&self, key: &str) -> (r: Option<&str>)
        ensures
            match r {
                Some(s) => self@.contains_key(key@) && self@[key@] == ExtraValueView::Str(s@),
                None => !(self@.contains_key(key@) && self@[key@] is Str),
            },
    {
        match self.get(key) {
            Some(v) => v.as_str(),
            None => None,
        }
    }

    /// The number in the field `key` when it is set to an integer.
    pub fn get_integer(&self, key: &str) -> (r: Option<i64>)
        ensures
            match r {
                Some(i) => self@.contains_key(key@) && self@[key@] == ExtraValueView::Integer(i),
                None => !(self@.contains_key(key@) && self@[key@] is Integer),
            },
    {
        match self.get(key) {
            Some(v) => v.as_integer(),
            None => None,
        }
    }

    /// These fields laid over `base`: a field set here keeps its value, and a
    /// field set only in `base` is taken from there.
    pub fn over(&self, base: &ExtraFields) -> (r: ExtraFields)
        ensures
            r@ == base@.union_prefer_right(self@),
    {
        let mut r = ExtraFields::new();
        let mut i: usize = 0;
        while i < base.entries.len()
            invariant
                i <= base.entries.len(),
                r@ == entries_map(base.entries@.take(i as int)),
            decreases base.entries.len() - i,
        {
            let k = base.entries[i].0.clone();
            let v = base.entries[i].1.copy();
            r.insert(k, v);
            proof {
                assert(base.entries@.take(i + 1).drop_last() =~= base.entries@.take(i as int));
            }
            i = i + 1;
        }
        proof {
            assert(base.entries@.take(i as int) =~= base.entries@);
            assert(self.entries@.take(0) =~= Seq::<(String, ExtraValue)>::empty());
            assert(r@ =~= base@.union_prefer_right(entries_map(self.entries@.take(0))));
        }
        let mut j: usize = 0;
        while j < self.entries.len()
            invariant
                j <= self.entries.len(),
                r@ == base@.union_prefer_right(entries_map(self.entries@.take(j as int))),
            decreases self.entries.len() - j,
        {
            let k = self.entries[j].0.clone();
            let v = self.entries[j].1.copy();
            let ghost before = r@;
            r.insert(k, v);
            proof {
                assert(self.entries@.take(j + 1).drop_last() =~= self.entries@.take(j as int));
                assert(r@ =~= base@.union_prefer_right(entries_map(self.entries@.take(j + 1))));
            }
            j = j + 1;
        }
        proof {
            assert(self.entries@.take(j as int) =~= self.entries@);
        }
        r
    }

    /// The fields as (name, value) entries; a later entry for a name replaces
    /// an earlier one.
    pub fn entries(&self) -> (r: &Vec<(String, ExtraValue)>)
        ensures
            entries_map(r@) == self@,
    {
        &self.entries
    }

    /// A copy of these fields.
    pub fn copy(&self) -> (r: ExtraFields)
        ensures
            r@ == self@,
    {
        let empty = ExtraFields::new();
        let r = self.over(&empty);
        proof {
            assert(r@ =~= self@);
        }
        r
    }
}


fn copy_opt_string(o: &Option<String>) -> (r: Option<String>)
    ensures
        r.deep_view() == o.deep_view(),
{
    match o {
        Some(s) => Some(s.clone()),
        None => None,
    }
}

fn copy_strings(v: &Vec<String>) -> (r: Vec<String>)
    ensures
        r.deep_view() == v.deep_view(),
{
    let mut r: Vec<String> = Vec::new();
    let mut i: usize = 0;
    while i < v.len()
        invariant
            i <= v.len(),
            r.deep_view() =~= v.deep_view().take(i as int),
        decreases v.len() - i,
    {
        let ghost before = r.deep_view();
        r.push(v[i].clone());
        proof {
            assert(r.deep_view() =~= before.push(v.deep_view()[i as int]));
        }
        i = i + 1;
    }
    proof {
        assert(v.deep_view().take(i as int) =~= v.deep_view());
    }
    r
}

fn copy_opt_strings(o: &Option<Vec<String>>) -> (r: Option<Vec<String>>)
    ensures
        r.deep_view() == o.deep_view(),
{
    match o {
        Some(v) => Some(copy_strings(v)),
        None => None,
    }
}

fn copy_files(v: &Vec<(String, String, String)>) -> (r: Vec<(String, String, String)>)
    ensures
        r.deep_view() == v.deep_view(),
{
    let mut r: Vec<(String, String, String)> = Vec::new();
    let mut i: usize = 0;
    while i < v.len()
        invariant
            i <= v.len(),
            r.deep_view() =~= v.deep_view().take(i as int),
        decreases v.len() - i,
    {
        let e = (v[i].0.clone(), v[i].1.clone(), v[i].2.clone());
        let ghost before = r.deep_view();
        r.push(e);
        proof {
            assert(r.deep_view() =~= before.push(v.deep_view()[i as int]));
        }
        i = i + 1;
    }
    proof {
        assert(v.deep_view().take(i as int) =~= v.deep_view());
    }
    r
}

fn copy_opt_files(o: &Option<Vec<(String, String, String)>>) -> (r: Option<
    Vec<(String, String, String)>,
>)
    ensures
        r.deep_view() == o.deep_view(),
{
    match o {
        Some(v) => Some(copy_files(v)),
        None => None,
    }
}

/// A distribution target as the configuration file states it.
#[derive(Debug)]
pub struct TargetConfig {
    /// Rust target triple; when absent it must be inherited.
    pub target: Option<String>,
    /// Package format (`deb`, `pkg` or `tgz`).
    pub format: String,
    /// `cargo build` flags.
    pub flags: Option<String>,
    /// The target this one inherits from.
    pub inherit: Option<String>,
    /// Format-specific fields.
    pub extra: ExtraFields,
    /// The workspace package to build.
    pub package: Option<String>,
    /// The binaries to put in the package.
    pub binaries: Option<Vec<String>>,
    /// Extra files to put in the package: (source, destination, octal mode).
    pub files: Option<Vec<(String, String, String)>>,
}

/// The mathematical form of a [`TargetConfig`].
pub struct TargetConfigView {
    pub target: Option<Seq<char>>,
    pub format: Seq<char>,
    pub flags: Option<Seq<char>>,
    pub inherit: Option<Seq<char>>,
    pub extra: Map<Seq<char>, ExtraValueView>,
    pub package: Option<Seq<char>>,
    pub binaries: Option<Seq<Seq<char>>>,
    pub files: Option<Seq<(Seq<char>, Seq<char>, Seq<char>)>>,
}

impl View for TargetConfig {
    type V = TargetConfigView;

    open spec fn view(&self) -> TargetConfigView {
        TargetConfigView {
            target: self.target.deep_view(),
            format: self.format@,
            flags: self.flags.deep_view(),
            inherit: self.inherit.deep_view(),
            extra: self.extra@,
            package: self.package.deep_view(),
            binaries: self.binaries.deep_view(),
            files: self.files.deep_view(),
        }
    }
}

/// The content of the configuration file: the distribution targets by name.
#[derive(Debug)]
pub struct DistConfig {
    /// Distribution targets, each under its own name.
    pub targets: Vec<(String, TargetConfig)>,
}

/// The places where the configuration file is looked for, in order.
pub open spec fn config_candidates() -> Seq<Seq<char>> {
    seq![".distinfo/targets.toml"@, "dist-targets.toml"@, ".cargo/dist-targets.toml"@]
}

/// No configuration file was found.
#[derive(Debug)]
pub struct ConfigNotFound;

impl ConfigNotFound {
    /// The error message.
    pub open spec fn message(self) -> Seq<char> {
        "`.distinfo/targets.toml` not found."@
    }

    /// The error message.
    pub fn to_string(&self) -> (r: String)
        ensures
            r@ == self.message(),
    {
        String::from_str("`.distinfo/targets.toml` not found.")
    }
}

impl DistConfig {
    /// The places where the configuration file is looked for, in order.
    pub fn candidates() -> (r: Vec<String>)
        ensures
            r.deep_view() == config_candidates(),
    {
        let mut r: Vec<String> = Vec::new();
        r.push(String::from_str(".distinfo/targets.toml"));
        r.push(String::from_str("dist-targets.toml"));
        r.push(String::from_str(".cargo/dist-targets.toml"));
        proof {
            assert(r.deep_view() =~= config_candidates());
        }
        r
    }

    /// The configuration file to load: the first candidate that exists, given
    /// for each candidate whether it exists.
    pub fn find(exists: &Vec<bool>) -> (r: Result<String, ConfigNotFound>)
        requires
            exists.len() == config_candidates().len(),
        ensures
            match r {
                Ok(p) => exists|i: int|
                    0 <= i < exists.len() && exists@[i] && p@ == config_candidates()[i] && forall|
                        j: int,
                    | 0 <= j < i ==> !#[trigger] exists@[j],
                Err(_) => forall|i: int| 0 <= i < exists.len() ==> !#[trigger] exists@[i],
            },
    {
        let candidates = DistConfig::candidates();
        let mut i: usize = 0;
        while i < exists.len()
            invariant
                exists.len() == candidates.len(),
                candidates.deep_view() == config_candidates(),
                i <= exists.len(),
                forall|j: int| 0 <= j < i ==> !#[trigger] exists@[j],
            decreases exists.len() - i,
        {
            if exists[i] {
                let p = candidates[i].clone();
                proof {
                    assert(p@ == candidates.deep_view()[i as int]);
                }
                return Ok(p);
            }
            i = i + 1;
        }
        Err(ConfigNotFound)
    }
}

/// A distribution target after inheritance has been applied.
#[derive(Debug)]
pub struct ResolvedTarget {
    /// Name of the distribution target.
    pub name: String,
    /// Rust target triple.
    pub target: String,
    /// Package format.
    pub format: String,
    /// `cargo build` flags.
    pub flags: Option<String>,
    /// Format-specific fields.
    pub extra: ExtraFields,
    /// The workspace package to build.
    pub package: Option<String>,
    /// The binaries to put in the package.
    pub binaries: Option<Vec<String>>,
    /// Extra files to put in the package: (source, destination, octal mode).
    pub files: Option<Vec<(String, String, String)>>,
}

/// The mathematical form of a [`ResolvedTarget`].
pub struct ResolvedTargetView {
    pub name: Seq<char>,
    pub target: Seq<char>,
    pub format: Seq<char>,
    pub flags: Option<Seq<char>>,
    pub extra: Map<Seq<char>, ExtraValueView>,
    pub package: Option<Seq<char>>,
    pub binaries: Option<Seq<Seq<char>>>,
    pub files: Option<Seq<(Seq<char>, Seq<char>, Seq<char>)>>,
}

impl View for ResolvedTarget {
    type V = ResolvedTargetView;

    open spec fn view(&self) -> ResolvedTargetView {
        ResolvedTargetView {
            name: self.name@,
            target: self.target@,
            format: self.format@,
            flags: self.flags.deep_view(),
            extra: self.extra@,
            package: self.package.deep_view(),
            binaries: self.binaries.deep_view(),
            files: self.files.deep_view(),
        }
    }
}

impl ResolvedTarget {
    /// A copy of this target.
    pub fn copy(&self) -> (r: ResolvedTarget)
        ensures
            r@ == self@,
    {
        ResolvedTarget {
            name: self.name.clone(),
            target: self.target.clone(),
            format: self.format.clone(),
            flags: copy_opt_string(&self.flags),
            extra: self.extra.copy(),
            package: copy_opt_string(&self.package),
            binaries: copy_opt_strings(&self.binaries),
            files: copy_opt_files(&self.files),
        }
    }
}

/// Why the targets could not be resolved.
#[derive(Debug)]
pub enum ResolveError {
    /// Some targets inherit from one another in a cycle.
    InheritanceLoop,
    /// A target inherits from a target that does not exist (its name).
    BaseNotFound(String),
    /// A target has no Rust triple and inherits none (its name).
    MissingTarget(String),
}

impl ResolveError {
    /// The error message.
    pub open spec fn message(self) -> Seq<char> {
        match self {
            ResolveError::InheritanceLoop => "Inheritance loop detected."@,
            ResolveError::BaseNotFound(p) => "'"@ + p@ + "' base target not found."@,
            ResolveError::MissingTarget(n) => "'"@ + n@
                + "' target have not 'target' and doesn't inherit it."@,
        }
    }

    /// The error message.
    pub fn to_string(&self) -> (r: String)
        ensures
            r@ == self.message(),
    {
        match self {
            ResolveError::InheritanceLoop => String::from_str("Inheritance loop detected."),
            ResolveError::BaseNotFound(p) => {
                let mut r = String::from_str("'");
                r.append(p.as_str());
                r.append("' base target not found.");
                r
            },
            ResolveError::MissingTarget(n) => {
                let mut r = String::from_str("'");
                r.append(n.as_str());
                r.append("' target have not 'target' and doesn't inherit it.");
                r
            },
        }
    }
}

/// No two targets share a name.
pub open spec fn names_distinct(raw: Seq<(String, TargetConfig)>) -> bool {
    forall|i: int, j: int| 0 <= i < j < raw.len() ==> raw[i].0@ != raw[j].0@
}

/// The position of the target called `name`, if there is one.
pub open spec fn index_of_name(raw: Seq<(String, TargetConfig)>, name: Seq<char>) -> Option<int> {
    if exists|j: int| 0 <= j < raw.len() && raw[j].0@ == name {
        Some(choose|j: int| 0 <= j < raw.len() && raw[j].0@ == name)
    } else {
        None
    }
}

/// The position of the target that target `i` inherits from, if it names one
/// that exists.
pub open spec fn parent_of(raw: Seq<(String, TargetConfig)>, i: int) -> Option<int> {
    match raw[i].1.inherit {
        Some(p) => index_of_name(raw, p@),
        None => None,
    }
}

/// `p` is a cycle of inheritance: each member inherits from the one before it,
/// and the last is the first.
pub open spec fn is_inheritance_cycle(raw: Seq<(String, TargetConfig)>, p: Seq<int>) -> bool {
    &&& p.len() >= 2
    &&& p[0] == p.last()
    &&& forall|k: int| 0 <= k < p.len() ==> 0 <= #[trigger] p[k] < raw.len()
    &&& forall|k: int| 0 <= k < p.len() - 1 ==> #[trigger] parent_of(raw, p[k + 1]) == Some(p[k])
}

/// Some targets inherit from one another in a cycle.
pub open spec fn inheritance_cycle(raw: Seq<(String, TargetConfig)>) -> bool {
    exists|p: Seq<int>| is_inheritance_cycle(raw, p)
}

/// Target `i` names a base that is not among the targets.
pub open spec fn base_missing(raw: Seq<(String, TargetConfig)>, i: int) -> bool {
    match raw[i].1.inherit {
        Some(p) => index_of_name(raw, p@) is None,
        None => false,
    }
}

/// Target `i` has no (or an empty) Rust triple and inherits from nothing.
pub open spec fn lacks_target(raw: Seq<(String, TargetConfig)>, i: int) -> bool {
    &&& raw[i].1.inherit is None
    &&& match raw[i].1.target {
        Some(t) => t@.len() == 0,
        None => true,
    }
}

/// Target `i` raises no error of its own during resolution.
pub open spec fn target_sound(raw: Seq<(String, TargetConfig)>, i: int) -> bool {
    !base_missing(raw, i) && !lacks_target(raw, i)
}

/// The targets can be resolved: no inheritance cycle, every base exists, and
/// every target has a Rust triple of its own or inherits one.
pub open spec fn resolvable(raw: Seq<(String, TargetConfig)>) -> bool {
    &&& !inheritance_cycle(raw)
    &&& forall|i: int| 0 <= i < raw.len() ==> #[trigger] target_sound(raw, i)
}

/// One step of inheritance: the target `name` configured as `cfg`, resolved
/// against its already resolved base, if it has one. The Rust triple and the
/// `cargo` flags and binaries are inherited where the target lacks them, and
/// format-specific fields are merged with the target's own taking precedence.
pub open spec fn resolve_step(
    name: Seq<char>,
    cfg: TargetConfigView,
    base: Option<ResolvedTargetView>,
) -> ResolvedTargetView {
    let own_target = match cfg.target {
        Some(t) => t,
        None => Seq::empty(),
    };
    match base {
        None => ResolvedTargetView {
            name: name,
            target: own_target,
            format: cfg.format,
            flags: cfg.flags,
            extra: cfg.extra,
            package: cfg.package,
            binaries: cfg.binaries,
            files: cfg.files,
        },
        Some(b) => ResolvedTargetView {
            name: name,
            target: if own_target.len() == 0 {
                b.target
            } else {
                own_target
            },
            format: cfg.format,
            flags: if cfg.flags is Some {
                cfg.flags
            } else {
                b.flags
            },
            extra: b.extra.union_prefer_right(cfg.extra),
            package: cfg.package,
            binaries: if cfg.binaries is Some {
                cfg.binaries
            } else {
                b.binaries
            },
            files: cfg.files,
        },
    }
}

/// The resolved form of target `i`'s base, if it has one.
pub open spec fn resolved_base(
    raw: Seq<(String, TargetConfig)>,
    res: Seq<ResolvedTarget>,
    i: int,
) -> Option<ResolvedTargetView> {
    match parent_of(raw, i) {
        Some(j) => Some(res[j]@),
        None => None,
    }
}

/// `res` resolves `raw`: one resolved target per configured target, in the
/// same order, each one inheritance step away from its resolved base, and each
/// with a Rust triple.
pub open spec fn resolved_correctly(
    raw: Seq<(String, TargetConfig)>,
    res: Seq<ResolvedTarget>,
) -> bool {
    &&& res.len() == raw.len()
    &&& forall|i: int|
        0 <= i < raw.len() ==> (#[trigger] res[i])@ == resolve_step(
            raw[i].0@,
            raw[i].1@,
            resolved_base(raw, res, i),
        )
    &&& forall|i: int| 0 <= i < res.len() ==> (#[trigger] res[i])@.target.len() > 0
}

fn index_of(raw: &Vec<(String, TargetConfig)>, name: &String) -> (r: Option<usize>)
    requires
        names_distinct(raw@),
    ensures
        match r {
            Some(j) => j < raw.len() && index_of_name(raw@, name@) == Some(j as int),
            None => index_of_name(raw@, name@) is None,
        },
{
    let mut j: usize = 0;
    while j < raw.len()
        invariant
            names_distinct(raw@),
            j <= raw.len(),
            forall|k: int| 0 <= k < j ==> (#[trigger] raw@[k]).0@ != name@,
        decreases raw.len() - j,
    {
        if str_eq(raw[j].0.as_str(), name.as_str()) {
            proof {
                let c = choose|c: int| 0 <= c < raw.len() && raw@[c].0@ == name@;
                if c != j {
                    if c < j {
                        assert(raw@[c].0@ != raw@[j as int].0@);
                    } else {
                        assert(raw@[j as int].0@ != raw@[c].0@);
                    }
                }
            }
            return Some(j);
        }
        j = j + 1;
    }
    None
}


/// The slot of target `v`, once filled, holds it resolved against its own
/// filled slot's base, with a Rust triple.
spec fn slot_sound(raw: Seq<(String, TargetConfig)>, slots: Seq<Option<ResolvedTarget>>, v: int) -> bool {
    match slots[v] {
        Some(rt) => rt@.target.len() > 0 && match parent_of(raw, v) {
            Some(j) => slots[j] is Some && rt@ == resolve_step(
                raw[v].0@,
                raw[v].1@,
                Some(slots[j]->Some_0@),
            ),
            None => rt@ == resolve_step(raw[v].0@, raw[v].1@, None),
        },
        None => true,
    }
}

/// `o` is the position of target `k`'s base, as `parent_of` gives it.
pub open spec fn base_index_is(raw: Seq<(String, TargetConfig)>, k: int, o: Option<usize>) -> bool {
    match o {
        Some(j) => j < raw.len() && parent_of(raw, k) == Some(j as int),
        None => parent_of(raw, k) is None,
    }
}

/// The edges of the inheritance graph among the first `i` targets: one from
/// each target's base to the target.
pub open spec fn edges_are_inheritance(
    raw: Seq<(String, TargetConfig)>,
    edges: Seq<(usize, usize)>,
    i: int,
) -> bool {
    &&& forall|e: int| 0 <= e < edges.len() ==> (#[trigger] edges[e]).0 < raw.len() && edges[e].1 < raw.len()
    &&& forall|a: int, b: int|
        #[trigger] has_edge(edges, a, b) <==> (0 <= b < i && parent_of(raw, b) == Some(a))
}

proof fn lemma_parent_in_range(raw: Seq<(String, TargetConfig)>, i: int)
    requires
        0 <= i < raw.len(),
    ensures
        parent_of(raw, i) matches Some(j) ==> 0 <= j < raw.len(),
{
}

/// The edges of the inheritance graph over the first `i` targets, in the
/// order in which they are added: one from each target's base to the target.
pub open spec fn inheritance_edges(raw: Seq<(String, TargetConfig)>, i: nat) -> Seq<(usize, usize)>
    decreases i,
{
    if i == 0 {
        Seq::empty()
    } else {
        let prev = inheritance_edges(raw, (i - 1) as nat);
        match parent_of(raw, i - 1) {
            Some(j) => prev.push((j as usize, (i - 1) as usize)),
            None => prev,
        }
    }
}

/// `order` lists every target exactly once, each after its base.
pub open spec fn is_resolution_order(raw: Seq<(String, TargetConfig)>, order: Seq<usize>) -> bool {
    &&& order.len() == raw.len()
    &&& forall|i: int| 0 <= i < order.len() ==> #[trigger] order[i] < raw.len()
    &&& forall|i: int, j: int| 0 <= i < j < order.len() ==> order[i] != order[j]
    &&& forall|v: int| 0 <= v < raw.len() ==> #[trigger] crate::graph::occurs_in(order, v)
    &&& forall|i: int| 0 <= i < order.len() ==> #[trigger] base_comes_before(raw, order, i)
}

/// The base of the target at position `i` of `order`, if it has one, comes
/// earlier in `order`.
pub open spec fn base_comes_before(raw: Seq<(String, TargetConfig)>, order: Seq<usize>, i: int) -> bool {
    match parent_of(raw, order[i] as int) {
        Some(j) => exists|m: int| 0 <= m < i && order[m] == j,
        None => true,
    }
}

/// The position in `order` of the first target that raises an error of its
/// own, if any does.
pub open spec fn first_unsound(raw: Seq<(String, TargetConfig)>, order: Seq<usize>) -> Option<int> {
    if exists|m: int| 0 <= m < order.len() && !target_sound(raw, order[m] as int) {
        Some(
            choose|m: int|
                0 <= m < order.len() && !target_sound(raw, order[m] as int) && forall|k: int|
                    0 <= k < m ==> target_sound(raw, #[trigger] order[k] as int),
        )
    } else {
        None
    }
}

/// `e` is the error that target `v` raises: `BaseNotFound` when its base does
/// not exist, otherwise `MissingTarget`.
pub open spec fn error_of_target(raw: Seq<(String, TargetConfig)>, v: int, e: ResolveError) -> bool {
    if base_missing(raw, v) {
        e matches ResolveError::BaseNotFound(p) && raw[v].1.inherit.deep_view() == Some(p@)
    } else {
        e matches ResolveError::MissingTarget(n) && n@ == raw[v].0@
    }
}

/// The outcome of resolving the targets in `order`: the error of the first
/// target in that order that raises one, or else every target resolved.
pub open spec fn resolved_in_order(
    raw: Seq<(String, TargetConfig)>,
    order: Seq<usize>,
    r: Result<Vec<ResolvedTarget>, ResolveError>,
) -> bool {
    match first_unsound(raw, order) {
        Some(m) => r matches Err(e) && error_of_target(raw, order[m] as int, e),
        None => r matches Ok(res) && resolved_correctly(raw, res@),
    }
}

proof fn lemma_first_unsound_at(raw: Seq<(String, TargetConfig)>, order: Seq<usize>, k: int)
    requires
        0 <= k < order.len(),
        !target_sound(raw, order[k] as int),
        forall|m: int| 0 <= m < k ==> #[trigger] target_sound(raw, order[m] as int),
    ensures
        first_unsound(raw, order) == Some(k),
{
    let m = choose|m: int|
        0 <= m < order.len() && !target_sound(raw, order[m] as int) && forall|j: int|
            0 <= j < m ==> target_sound(raw, #[trigger] order[j] as int);
    if m < k {
        assert(target_sound(raw, order[m] as int));
    } else if m > k {
        assert(target_sound(raw, order[k] as int));
    }
}

/// Resolves the targets in the given order, in which each target comes after
/// its base: each is resolved against its already resolved base. Fails with
/// the error of the first target in that order that has a missing base or
/// no Rust triple.
pub fn resolve_in_order(raw: &Vec<(String, TargetConfig)>, order: &Vec<usize>) -> (r: Result<
    Vec<ResolvedTarget>,
    ResolveError,
>)
    requires
        names_distinct(raw@),
        is_resolution_order(raw@, order@),
    ensures
        resolved_in_order(raw@, order@, r),
{
    let n = raw.len();
    let mut parents: Vec<Option<usize>> = Vec::new();
    let mut i: usize = 0;
    while i < n
        invariant
            n == raw.len(),
            names_distinct(raw@),
            i <= n,
            parents.len() == i,
            forall|k: int| 0 <= k < i ==> #[trigger] base_index_is(raw@, k, parents@[k]),
        decreases n - i,
    {
        let p = match &raw[i].1.inherit {
            Some(name) => index_of(raw, name),
            None => None,
        };
        parents.push(p);
        i = i + 1;
    }
    // Resolve the targets in topological order, each into its own slot.
    let mut slots: Vec<Option<ResolvedTarget>> = Vec::new();
    let mut i: usize = 0;
    while i < n
        invariant
            i <= n,
            slots.len() == i,
            forall|u: int| 0 <= u < i ==> #[trigger] slots@[u] is None,
        decreases n - i,
    {
        slots.push(None);
        i = i + 1;
    }
    let mut k: usize = 0;
    while k < n
        invariant
            n == raw.len(),
            names_distinct(raw@),
            parents.len() == n,
            forall|x: int| 0 <= x < n ==> #[trigger] base_index_is(raw@, x, parents@[x]),
            is_resolution_order(raw@, order@),
            slots.len() == n,
            k <= n,
            forall|u: int|
                0 <= u < n ==> (#[trigger] slots@[u] is Some <==> exists|m: int|
                    0 <= m < k && order@[m] == u),
            forall|u: int| 0 <= u < n ==> #[trigger] slot_sound(raw@, slots@, u),
            forall|m: int| 0 <= m < k ==> #[trigger] target_sound(raw@, order@[m] as int),
        decreases n - k,
    {
        let v = order[k];
        proof {
            assert(order@[k as int] < n);
            if slots@[v as int] is Some {
                let m = choose|m: int| 0 <= m < k && order@[m] == v;
                assert(order@[m] != order@[k as int]);
            }
            assert(base_index_is(raw@, v as int, parents@[v as int]));
        }
        let name = &raw[v].0;
        let cfg = &raw[v].1;
        let mut target = match &cfg.target {
            Some(t) => t.clone(),
            None => String::new(),
        };
        let mut flags = copy_opt_string(&cfg.flags);
        let mut extra = cfg.extra.copy();
        let mut binaries = copy_opt_strings(&cfg.binaries);
        let ghost mut base_view: Option<ResolvedTargetView> = None;
        match &cfg.inherit {
            Some(p) => {
                match parents[v] {
                    Some(j) => {
                        proof {
                            assert(base_comes_before(raw@, order@, k as int));
                            let m = choose|m: int| 0 <= m < k && order@[m] == j;
                            assert(slots@[j as int] is Some);
                            assert(slot_sound(raw@, slots@, j as int));
                        }
                        let base = slots[j].as_ref().unwrap();
                        proof {
                            base_view = Some(base@);
                        }
                        if target.as_str().is_empty() {
                            target = base.target.clone();
                        }
                        if flags.is_none() {
                            flags = copy_opt_string(&base.flags);
                        }
                        extra = cfg.extra.over(&base.extra);
                        if binaries.is_none() {
                            binaries = copy_opt_strings(&base.binaries);
                        }
                    },
                    None => {
                        proof {
                            assert(!target_sound(raw@, v as int));
                            lemma_first_unsound_at(raw@, order@, k as int);
                        }
                        return Err(ResolveError::BaseNotFound(p.clone()));
                    },
                }
            },
            None => {},
        }
        if target.as_str().is_empty() {
            proof {
                assert(lacks_target(raw@, v as int));
                assert(!target_sound(raw@, v as int));
                lemma_first_unsound_at(raw@, order@, k as int);
            }
            return Err(ResolveError::MissingTarget(name.clone()));
        }
        let rt = ResolvedTarget {
            name: name.clone(),
            target: target,
            format: cfg.format.clone(),
            flags: flags,
            extra: extra,
            package: copy_opt_string(&cfg.package),
            binaries: binaries,
            files: copy_opt_files(&cfg.files),
        };
        proof {
            assert(rt@ == resolve_step(raw@[v as int].0@, raw@[v as int].1@, base_view));
            assert(target_sound(raw@, v as int));
        }
        let ghost before = slots@;
        slots.set(v, Some(rt));
        proof {
            assert forall|u: int| 0 <= u < n implies #[trigger] slot_sound(raw@, slots@, u) by {
                assert(slot_sound(raw@, before, u));
                if u != v {
                    if before[u] is Some {
                        lemma_parent_in_range(raw@, u);
                    }
                }
            }
            assert forall|u: int|
                0 <= u < n implies (#[trigger] slots@[u] is Some <==> exists|m: int|
                    0 <= m < k + 1 && order@[m] == u) by {
                if u == v {
                    assert(order@[k as int] == u);
                } else {
                    if exists|m: int| 0 <= m < k + 1 && order@[m] == u {
                        let m = choose|m: int| 0 <= m < k + 1 && order@[m] == u;
                        assert(m != k);
                    }
                }
            }
        }
        k = k + 1;
    }
    // Every target has been resolved; gather them in configuration order.
    proof {
        assert forall|u: int| 0 <= u < n implies #[trigger] slots@[u] is Some by {
            assert(crate::graph::occurs_in(order@, u));
            let m = choose|m: int| 0 <= m < order@.len() && order@[m] == u;
        }
        if first_unsound(raw@, order@) is Some {
            let m = choose|m: int| 0 <= m < order@.len() && !target_sound(raw@, order@[m] as int);
            assert(target_sound(raw@, order@[m] as int));
        }
    }
    let mut res: Vec<ResolvedTarget> = Vec::new();
    let mut v: usize = 0;
    while v < n
        invariant
            n == raw.len(),
            slots.len() == n,
            v <= n,
            res.len() == v,
            forall|u: int| 0 <= u < n ==> #[trigger] slots@[u] is Some,
            forall|u: int| 0 <= u < v ==> (#[trigger] res@[u])@ == slots@[u]->Some_0@,
        decreases n - v,
    {
        let rt = slots[v].as_ref().unwrap().copy();
        res.push(rt);
        v = v + 1;
    }
    proof {
        assert forall|u: int| 0 <= u < n implies (#[trigger] res@[u])@ == resolve_step(
            raw@[u].0@,
            raw@[u].1@,
            resolved_base(raw@, res@, u),
        ) && res@[u]@.target.len() > 0 by {
            assert(slot_sound(raw@, slots@, u));
            lemma_parent_in_range(raw@, u);
        }
    }
    Ok(res)
}


proof fn lemma_inheritance_edges(raw: Seq<(String, TargetConfig)>, i: nat)
    requires
        i <= raw.len(),
        raw.len() <= usize::MAX,
    ensures
        inheritance_edges(raw, i).len() <= i,
        edges_are_inheritance(raw, inheritance_edges(raw, i), i as int),
    decreases i,
{
    if i > 0 {
        let prev = inheritance_edges(raw, (i - 1) as nat);
        lemma_inheritance_edges(raw, (i - 1) as nat);
        lemma_parent_in_range(raw, i - 1);
        let edges = inheritance_edges(raw, i);
        match parent_of(raw, i - 1) {
            Some(j) => {
                assert forall|a: int, b: int| #[trigger]
                    has_edge(edges, a, b) <==> (0 <= b < i && parent_of(raw, b) == Some(a)) by {
                    lemma_has_edge_push(prev, (j as usize, (i - 1) as usize), a, b);
                }
                assert forall|e: int| 0 <= e < edges.len() implies (#[trigger] edges[e]).0 < raw.len()
                    && edges[e].1 < raw.len() by {
                    if e < prev.len() {
                        assert(edges[e] == prev[e]);
                    }
                }
            },
            None => {
                assert forall|a: int, b: int| #[trigger]
                    has_edge(edges, a, b) <==> (0 <= b < i && parent_of(raw, b) == Some(a)) by {
                    if b == i - 1 {
                        assert(!has_edge(prev, a, b));
                    }
                }
            },
        }
    }
}

/// A cycle in the inheritance graph is a cycle of inheritance.
proof fn lemma_graph_cycle(raw: Seq<(String, TargetConfig)>, p: Seq<int>)
    requires
        raw.len() <= usize::MAX,
        is_cycle(inheritance_edges(raw, raw.len()), p),
    ensures
        is_inheritance_cycle(raw, p),
{
    let edges = inheritance_edges(raw, raw.len());
    lemma_inheritance_edges(raw, raw.len());
    assert forall|k: int| 0 <= k < p.len() - 1 implies 0 <= #[trigger] p[k] < raw.len()
        && parent_of(raw, p[k + 1]) == Some(p[k]) by {
        assert(has_edge(edges, p[k], p[k + 1]));
        lemma_parent_in_range(raw, p[k + 1]);
    }
    assert forall|k: int| 0 <= k < p.len() implies 0 <= #[trigger] p[k] < raw.len() by {
        if k == p.len() - 1 {
            assert(p[k] == p[0]);
        }
    }
}

/// A topological order of the inheritance graph rules out inheritance cycles
/// and lists each target after its base.
proof fn lemma_topological_resolution_order(raw: Seq<(String, TargetConfig)>, order: Seq<usize>)
    requires
        raw.len() <= usize::MAX,
        is_topological_order(raw.len(), inheritance_edges(raw, raw.len()), order),
    ensures
        !inheritance_cycle(raw),
        is_resolution_order(raw, order),
{
    let n = raw.len();
    let edges = inheritance_edges(raw, n);
    lemma_inheritance_edges(raw, n);
    lemma_topological_order_acyclic(n, edges, order);
    if inheritance_cycle(raw) {
        let p = choose|p: Seq<int>| is_inheritance_cycle(raw, p);
        assert forall|k: int| 0 <= k < p.len() - 1 implies #[trigger] has_edge(
            edges,
            p[k],
            p[k + 1],
        ) by {
            assert(parent_of(raw, p[k + 1]) == Some(p[k]));
            assert(0 <= p[k + 1] < n);
        }
        assert(is_cycle(edges, p));
    }
    assert forall|i: int| 0 <= i < n implies #[trigger] base_comes_before(raw, order, i) by {
        assert(order[i] < n);
        lemma_parent_in_range(raw, order[i] as int);
        if let Some(j) = parent_of(raw, order[i] as int) {
            assert(has_edge(edges, j, order[i] as int));
            let e = choose|e: int| 0 <= e < edges.len() && edges[e].0 == j && edges[e].1 == order[i];
            let (a, b) = choose|a: int, b: int|
                0 <= a < b < n && order[a] == (#[trigger] edges[e]).0 && order[b] == edges[e].1;
            if b != i {
                if b < i {
                    assert(order[b] != order[i]);
                } else {
                    assert(order[i] != order[b]);
                }
            }
        }
    }
}

/// Resolving in an order in which each target follows its base succeeds
/// exactly on resolvable targets, and an error it reports is the error of
/// some target.
proof fn lemma_in_order_outcome(
    raw: Seq<(String, TargetConfig)>,
    order: Seq<usize>,
    r: Result<Vec<ResolvedTarget>, ResolveError>,
)
    requires
        !inheritance_cycle(raw),
        is_resolution_order(raw, order),
        resolved_in_order(raw, order, r),
    ensures
        r is Ok <==> resolvable(raw),
        !(r matches Err(e) && e is InheritanceLoop),
        r matches Err(ResolveError::BaseNotFound(p)) ==> exists|i: int|
            0 <= i < raw.len() && raw[i].1.inherit.deep_view() == Some(p@) && #[trigger] base_missing(
                raw,
                i,
            ),
        r matches Err(ResolveError::MissingTarget(n)) ==> exists|i: int|
            0 <= i < raw.len() && raw[i].0@ == n@ && #[trigger] lacks_target(raw, i),
{
    match first_unsound(raw, order) {
        Some(m) => {
            lemma_error_of_target(raw, order, m, r);
        },
        None => {
            lemma_all_sound(raw, order);
        },
    }
}

proof fn lemma_error_of_target(
    raw: Seq<(String, TargetConfig)>,
    order: Seq<usize>,
    m: int,
    r: Result<Vec<ResolvedTarget>, ResolveError>,
)
    requires
        is_resolution_order(raw, order),
        first_unsound(raw, order) == Some(m),
        r matches Err(e) && error_of_target(raw, order[m] as int, e),
    ensures
        !resolvable(raw),
        !(r matches Err(e) && e is InheritanceLoop),
        r matches Err(ResolveError::BaseNotFound(p)) ==> exists|i: int|
            0 <= i < raw.len() && raw[i].1.inherit.deep_view() == Some(p@) && #[trigger] base_missing(
                raw,
                i,
            ),
        r matches Err(ResolveError::MissingTarget(n)) ==> exists|i: int|
            0 <= i < raw.len() && raw[i].0@ == n@ && #[trigger] lacks_target(raw, i),
{
    let k = choose|k: int| 0 <= k < order.len() && !target_sound(raw, order[k] as int);
    lemma_first_unsound_exists(raw, order, k);
    let v = order[m] as int;
    assert(0 <= m < order.len() && !target_sound(raw, v));
    assert(v < raw.len());
}

/// Where some target in `order` raises an error, a first one does.
proof fn lemma_first_unsound_exists(raw: Seq<(String, TargetConfig)>, order: Seq<usize>, k: int)
    requires
        0 <= k < order.len(),
        !target_sound(raw, order[k] as int),
    ensures
        exists|m: int|
            0 <= m < order.len() && !target_sound(raw, order[m] as int) && forall|j: int|
                0 <= j < m ==> target_sound(raw, #[trigger] order[j] as int),
    decreases k,
{
    if exists|j: int| 0 <= j < k && !target_sound(raw, #[trigger] order[j] as int) {
        let j = choose|j: int| 0 <= j < k && !target_sound(raw, #[trigger] order[j] as int);
        lemma_first_unsound_exists(raw, order, j);
    } else {
        assert(forall|j: int| 0 <= j < k ==> target_sound(raw, #[trigger] order[j] as int));
    }
}

proof fn lemma_all_sound(raw: Seq<(String, TargetConfig)>, order: Seq<usize>)
    requires
        is_resolution_order(raw, order),
        first_unsound(raw, order) is None,
    ensures
        forall|u: int| 0 <= u < raw.len() ==> #[trigger] target_sound(raw, u),
{
    assert forall|u: int| 0 <= u < raw.len() implies #[trigger] target_sound(raw, u) by {
        assert(crate::graph::occurs_in(order, u));
        let m = choose|m: int| 0 <= m < order.len() && order[m] == u;
        if !target_sound(raw, order[m] as int) {
            assert(exists|k: int| 0 <= k < order.len() && !target_sound(raw, order[k] as int));
        }
    }
}

/// Resolves the inheritance between distribution targets.
///
/// Fails with `InheritanceLoop` exactly when targets inherit from one another
/// in a cycle; otherwise with `BaseNotFound` for a target whose base does not
/// exist, or `MissingTarget` for a target that has no Rust triple and inherits
/// none. Which of several such errors is reported depends on the order in
/// which `petgraph::algo::toposort` lists the targets: the first one in that
/// order that raises an error is reported.
pub fn resolve_targets(raw: Vec<(String, TargetConfig)>) -> (r: Result<
    Vec<ResolvedTarget>,
    ResolveError,
>)
    requires
        names_distinct(raw@),
        raw.len() < u32::MAX,
    ensures
        r is Ok <==> resolvable(raw@),
        (r matches Err(e) && e is InheritanceLoop) <==> inheritance_cycle(raw@),
        r matches Err(ResolveError::BaseNotFound(p)) ==> exists|i: int|
            0 <= i < raw.len() && raw@[i].1.inherit.deep_view() == Some(p@) && #[trigger] base_missing(
                raw@,
                i,
            ),
        r matches Err(ResolveError::MissingTarget(n)) ==> exists|i: int|
            0 <= i < raw.len() && raw@[i].0@ == n@ && #[trigger] lacks_target(raw@, i),
        r matches Ok(res) ==> resolved_correctly(raw@, res@),
        match toposort_order(raw.len() as nat, inheritance_edges(raw@, raw.len() as nat)) {
            Some(order) => resolved_in_order(raw@, order, r),
            None => r matches Err(e) && e is InheritanceLoop,
        },
{
    let n = raw.len();
    // The inheritance graph: one node per target, an edge from each base.
    let mut g = new_graph();
    let mut i: usize = 0;
    while i < n
        invariant
            n == raw.len(),
            n < u32::MAX,
            i <= n,
            graph_nodes(g).len() == i,
            graph_edges(g) == Seq::<(usize, usize)>::empty(),
        decreases n - i,
    {
        add_node(&mut g, i);
        i = i + 1;
    }
    let mut i: usize = 0;
    while i < n
        invariant
            n == raw.len(),
            n < u32::MAX,
            names_distinct(raw@),
            i <= n,
            graph_nodes(g).len() == n,
            graph_edges(g) == inheritance_edges(raw@, i as nat),
        decreases n - i,
    {
        proof {
            lemma_inheritance_edges(raw@, i as nat);
        }
        let p = match &raw[i].1.inherit {
            Some(name) => index_of(&raw, name),
            None => None,
        };
        if let Some(j) = p {
            add_edge(&mut g, j, i);
        }
        i = i + 1;
    }
    let ghost edges = graph_edges(g);
    match toposort(&g) {
        Err(_) => {
            proof {
                let p = choose|p: Seq<int>| is_cycle(edges, p);
                lemma_graph_cycle(raw@, p);
            }
            Err(ResolveError::InheritanceLoop)
        },
        Ok(order) => {
            proof {
                lemma_topological_resolution_order(raw@, order@);
            }
            let r = resolve_in_order(&raw, &order);
            proof {
                lemma_in_order_outcome(raw@, order@, r);
            }
            r
        },
    }
}

/// What a resolved target never takes from a base: its name, package format,
/// workspace package and extra files are always its own configured ones,
/// whether or not it inherits.
pub proof fn lemma_own_fields(raw: Seq<(String, TargetConfig)>, res: Seq<ResolvedTarget>, i: int)
    requires
        resolved_correctly(raw, res),
        0 <= i < raw.len(),
    ensures
        res[i].name@ == raw[i].0@,
        res[i].format@ == raw[i].1.format@,
        res[i].package.deep_view() == raw[i].1.package.deep_view(),
        res[i].files.deep_view() == raw[i].1.files.deep_view(),
{
    assert(res[i]@ == resolve_step(raw[i].0@, raw[i].1@, resolved_base(raw, res, i)));
}

/// What a resolved target takes from its base: its Rust triple, `cargo`
/// flags and binaries where it configures none of its own, and every
/// format-specific field it does not set itself; its own settings win.
pub proof fn lemma_inherits_from_base(
    raw: Seq<(String, TargetConfig)>,
    res: Seq<ResolvedTarget>,
    i: int,
    j: int,
)
    requires
        resolved_correctly(raw, res),
        0 <= i < raw.len(),
        parent_of(raw, i) == Some(j),
    ensures
        0 <= j < raw.len(),
        res[i]@.name == raw[i].0@,
        res[i]@.format == raw[i].1@.format,
        match raw[i].1@.target {
            Some(t) => t.len() > 0 ==> res[i]@.target == t,
            None => true,
        },
        (raw[i].1@.target is None || raw[i].1@.target == Some(Seq::<char>::empty()))
            ==> res[i]@.target == res[j]@.target,
        res[i]@.flags == if raw[i].1@.flags is Some {
            raw[i].1@.flags
        } else {
            res[j]@.flags
        },
        res[i]@.binaries == if raw[i].1@.binaries is Some {
            raw[i].1@.binaries
        } else {
            res[j]@.binaries
        },
        forall|k: Seq<char>|
            #![trigger res[i]@.extra.contains_key(k)]
            res[i]@.extra.contains_key(k) <==> (raw[i].1@.extra.contains_key(k)
                || res[j]@.extra.contains_key(k)),
        forall|k: Seq<char>|
            #![trigger res[i]@.extra[k]]
            res[i]@.extra.contains_key(k) ==> res[i]@.extra[k] == if raw[i].1@.extra.contains_key(
                k,
            ) {
                raw[i].1@.extra[k]
            } else {
                res[j]@.extra[k]
            },
{
    lemma_parent_in_range(raw, i);
    assert(res[i]@ == resolve_step(raw[i].0@, raw[i].1@, Some(res[j]@)));
}

proof fn lemma_differs_parent(
    raw: Seq<(String, TargetConfig)>,
    res1: Seq<ResolvedTarget>,
    res2: Seq<ResolvedTarget>,
    i: int,
)
    requires
        resolved_correctly(raw, res1),
        resolved_correctly(raw, res2),
        0 <= i < raw.len(),
        res1[i]@ != res2[i]@,
    ensures
        parent_of(raw, i) matches Some(j) && 0 <= j < raw.len() && res1[j]@ != res2[j]@,
{
    assert(res1[i]@ == resolve_step(raw[i].0@, raw[i].1@, resolved_base(raw, res1, i)));
    assert(res2[i]@ == resolve_step(raw[i].0@, raw[i].1@, resolved_base(raw, res2, i)));
    lemma_parent_in_range(raw, i);
}

/// The target reached from `i` by following `k` inheritance links (staying
/// put at a target without a base).
spec fn ancestor(raw: Seq<(String, TargetConfig)>, i: int, k: nat) -> int
    decreases k,
{
    if k == 0 {
        i
    } else {
        match parent_of(raw, ancestor(raw, i, (k - 1) as nat)) {
            Some(j) => j,
            None => ancestor(raw, i, (k - 1) as nat),
        }
    }
}

proof fn lemma_differing_chain(
    raw: Seq<(String, TargetConfig)>,
    res1: Seq<ResolvedTarget>,
    res2: Seq<ResolvedTarget>,
    i: int,
    k: nat,
)
    requires
        resolved_correctly(raw, res1),
        resolved_correctly(raw, res2),
        0 <= i < raw.len(),
        res1[i]@ != res2[i]@,
    ensures
        0 <= ancestor(raw, i, k) < raw.len(),
        res1[ancestor(raw, i, k)]@ != res2[ancestor(raw, i, k)]@,
        parent_of(raw, ancestor(raw, i, k)) == Some(ancestor(raw, i, k + 1)),
    decreases k,
{
    if k > 0 {
        lemma_differing_chain(raw, res1, res2, i, (k - 1) as nat);
    }
    lemma_differs_parent(raw, res1, res2, ancestor(raw, i, k));
}

/// Resolution is determined by the configuration alone: on a configuration
/// without inheritance cycles, any two results that both resolve it agree on
/// every target, whatever order the targets were visited in.
#[verifier::rlimit(40)]
pub proof fn lemma_resolution_unique(
    raw: Seq<(String, TargetConfig)>,
    res1: Seq<ResolvedTarget>,
    res2: Seq<ResolvedTarget>,
)
    requires
        !inheritance_cycle(raw),
        resolved_correctly(raw, res1),
        resolved_correctly(raw, res2),
    ensures
        forall|i: int| 0 <= i < raw.len() ==> (#[trigger] res1[i])@ == res2[i]@,
{
    assert forall|i: int| 0 <= i < raw.len() implies (#[trigger] res1[i])@ == res2[i]@ by {
        if res1[i]@ != res2[i]@ {
            let n = raw.len();
            let c = Seq::new(n + 1, |k: int| ancestor(raw, i, k as nat));
            assert forall|k: int| 0 <= k <= n implies 0 <= #[trigger] c[k] < n && parent_of(
                raw,
                c[k],
            ) == Some(ancestor(raw, i, (k + 1) as nat)) by {
                lemma_differing_chain(raw, res1, res2, i, k as nat);
            }
            if c.no_duplicates() {
                c.unique_seq_to_set();
                vstd::set_lib::lemma_int_range(0, n as int);
                assert(c.to_set().subset_of(vstd::set_lib::set_int_range(0, n as int))) by {
                    assert forall|x: int| c.to_set().contains(x) implies vstd::set_lib::set_int_range(
                        0,
                        n as int,
                    ).contains(x) by {
                        let k = choose|k: int| 0 <= k < c.len() && c[k] == x;
                    }
                }
                vstd::set_lib::lemma_len_subset(c.to_set(), vstd::set_lib::set_int_range(0, n as int));
            } else {
                let (a, b) = choose|a: int, b: int| 0 <= a < c.len() && 0 <= b < c.len() && a != b && c[a] == c[b];
                let (a, b) = if a < b { (a, b) } else { (b, a) };
                let p = Seq::new((b - a + 1) as nat, |m: int| c[b - m]);
                assert forall|m: int| 0 <= m < p.len() - 1 implies #[trigger] parent_of(raw, p[m + 1]) == Some(p[m]) by {
                    assert(p[m + 1] == c[b - m - 1]);
                    assert(parent_of(raw, c[b - m - 1]) == Some(ancestor(raw, i, (b - m - 1 + 1) as nat)));
                    assert(c[b - m] == ancestor(raw, i, (b - m) as nat));
                }
                assert forall|m: int| 0 <= m < p.len() implies 0 <= #[trigger] p[m] < raw.len() by {
                    assert(p[m] == c[b - m]);
                }
                assert(is_inheritance_cycle(raw, p));
            }
        }
    }
}

} // verus!
