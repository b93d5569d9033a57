//! The version model: a parsed `[prefix-]major.minor.patch[-label]` tag with
//! an optional release-candidate counter, its parser and renderer, and the
//! increment engine that bumps it by a scope and an optional qualifier.

use vstd::prelude::*;

verus! {

use crate::opt_str_view;
use crate::semver_ext::core_seq;
use crate::semver_ext::is_semver;
use crate::semver_ext::semver_accepts;
use crate::strutil::dec;
use crate::strutil::join_dash_range;
use crate::strutil::join_on;
use crate::strutil::parse_u32_digits;
use crate::strutil::parses_u32;
use crate::strutil::seq_val;
use crate::strutil::split_on;
use crate::strutil::split_str;
use crate::strutil::str_eq;
use crate::strutil::u32_to_string;

/// A parsed version tag.
#[derive(Debug, Clone, PartialEq, Eq)]
pub struct Version {
    pub prefix: Option<String>,
    pub major: u32,
    pub minor: u32,
    pub patch: u32,
    pub label: Option<String>,
    pub rc_number: Option<u32>,
}

/// The mathematical model of a `Version`.
#[verifier::ext_equal]
pub ghost struct VersionModel {
    pub prefix: Option<Seq<char>>,
    pub major: nat,
    pub minor: nat,
    pub patch: nat,
    pub label: Option<Seq<char>>,
    pub rc_number: Option<nat>,
}

/// The view of an optional owned string.
pub open spec fn opt_string_view(o: Option<String>) -> Option<Seq<char>> {
    match o {
        Some(s) => Some(s@),
        None => None,
    }
}

impl View for Version {
    type V = VersionModel;

    open spec fn view(&self) -> VersionModel {
        VersionModel {
            prefix: opt_string_view(self.prefix),
            major: self.major as nat,
            minor: self.minor as nat,
            patch: self.patch as nat,
            label: opt_string_view(self.label),
            rc_number: match self.rc_number {
                Some(n) => Some(n as nat),
                None => None,
            },
        }
    }
}

/// The release-candidate label word.
pub open spec fn rc_marker() -> Seq<char> {
    seq!['r', 'c']
}

pub open spec fn alpha_word() -> Seq<char> {
    seq!['a', 'l', 'p', 'h', 'a']
}

pub open spec fn beta_word() -> Seq<char> {
    seq!['b', 'e', 't', 'a']
}

pub open spec fn major_word() -> Seq<char> {
    seq!['m', 'a', 'j', 'o', 'r']
}

pub open spec fn minor_word() -> Seq<char> {
    seq!['m', 'i', 'n', 'o', 'r']
}

pub open spec fn patch_word() -> Seq<char> {
    seq!['p', 'a', 't', 'c', 'h']
}

/// Why a tag string failed to parse.
#[derive(Debug, Clone, Copy, PartialEq, Eq, Structural)]
pub enum ParseError {
    /// Three or more dash-segments, none of which is a bare semantic version.
    NoCoreSegment,
    /// The numeric core has fewer than three dot-separated parts.
    MissingComponents,
    InvalidMajor,
    InvalidMinor,
    InvalidPatch,
}

/// Why an increment request was rejected.
#[derive(Debug, Clone, Copy, PartialEq, Eq, Structural)]
pub enum IncrementError {
    InvalidScope,
    InvalidOption,
}

impl ParseError {
    /// The human-readable message for this error.
    pub fn message(&self) -> (r: String)
        ensures
            *self == ParseError::NoCoreSegment ==> r@ == "No segment resembles a version"@,
            *self == ParseError::MissingComponents ==> r@ == "Invalid version format"@,
            *self == ParseError::InvalidMajor ==> r@ == "Invalid major version"@,
            *self == ParseError::InvalidMinor ==> r@ == "Invalid minor version"@,
            *self == ParseError::InvalidPatch ==> r@ == "Invalid patch version"@,
    {
        match self {
            ParseError::NoCoreSegment => String::from_str("No segment resembles a version"),
            ParseError::MissingComponents => String::from_str("Invalid version format"),
            ParseError::InvalidMajor => String::from_str("Invalid major version"),
            ParseError::InvalidMinor => String::from_str("Invalid minor version"),
            ParseError::InvalidPatch => String::from_str("Invalid patch version"),
        }
    }
}

impl IncrementError {
    /// The human-readable message for this error, naming the legal values.
    pub fn message(&self) -> (r: String)
        ensures
            *self == IncrementError::InvalidScope ==> r@
                == "Invalid scope. Valid scopes are: major, minor, patch, and option"@,
            *self == IncrementError::InvalidOption ==> r@
                == "Invalid option. Valid scopes are: alpha, beta, rc, or just left it empty"@,
    {
        match self {
            IncrementError::InvalidScope => String::from_str(
                "Invalid scope. Valid scopes are: major, minor, patch, and option",
            ),
            IncrementError::InvalidOption => String::from_str(
                "Invalid option. Valid scopes are: alpha, beta, rc, or just left it empty",
            ),
        }
    }
}

/// The position of the first dash-segment the classifier accepts.
pub open spec fn first_semver_index(parts: Seq<Seq<char>>) -> Option<int>
    decreases parts.len(),
{
    if parts.len() == 0 {
        None
    } else if semver_accepts(parts[0]) {
        Some(0int)
    } else {
        match first_semver_index(parts.drop_first()) {
            Some(i) => Some(i + 1),
            None => None,
        }
    }
}

/// A scan that rejects everything before `i` and accepts `parts[i]` settles
/// the first accepted index.
pub proof fn lemma_first_semver_index(parts: Seq<Seq<char>>, i: int)
    requires
        0 <= i <= parts.len(),
        forall|j: int| 0 <= j < i ==> !semver_accepts(#[trigger] parts[j]),
    ensures
        i == parts.len() ==> first_semver_index(parts) is None,
        i < parts.len() && semver_accepts(parts[i]) ==> first_semver_index(parts) == Some(i),
    decreases i,
{
    if parts.len() == 0 {
    } else if i == 0 {
    } else {
        let d = parts.drop_first();
        assert(forall|j: int| 0 <= j < i - 1 ==> !semver_accepts(#[trigger] d[j]));
        lemma_first_semver_index(d, i - 1);
        if i < parts.len() {
            assert(d[i - 1] == parts[i]);
        }
    }
}

/// How the dash-segments of a tag are divided into prefix, numeric core and
/// trailing label.
pub open spec fn segment_spec(parts: Seq<Seq<char>>) -> Result<
    (Option<Seq<char>>, Seq<char>, Option<Seq<char>>),
    ParseError,
> {
    if parts.len() == 0 {
        Err(ParseError::NoCoreSegment)
    } else if parts.len() == 1 {
        Ok((None, parts[0], None))
    } else if parts.len() == 2 {
        if semver_accepts(parts[0]) {
            Ok((None, parts[0], Some(parts[1])))
        } else {
            Ok((Some(parts[0]), parts[1], None))
        }
    } else {
        match first_semver_index(parts) {
            Some(i) => Ok(
                (
                    if i == 0 {
                        None
                    } else {
                        Some(join_on(parts.subrange(0, i), '-'))
                    },
                    parts[i],
                    if i == parts.len() - 1 {
                        None
                    } else {
                        Some(join_on(parts.subrange(i + 1, parts.len() as int), '-'))
                    },
                ),
            ),
            None => Err(ParseError::NoCoreSegment),
        }
    }
}

/// The three numeric components of a core segment, or which one is at fault.
pub open spec fn core_components(core: Seq<char>) -> Result<(nat, nat, nat), ParseError> {
    let cp = split_on(core, '.');
    if cp.len() < 3 {
        Err(ParseError::MissingComponents)
    } else if !parses_u32(cp[0]) {
        Err(ParseError::InvalidMajor)
    } else if !parses_u32(cp[1]) {
        Err(ParseError::InvalidMinor)
    } else if !parses_u32(cp[2]) {
        Err(ParseError::InvalidPatch)
    } else {
        Ok((seq_val(cp[0]), seq_val(cp[1]), seq_val(cp[2])))
    }
}

/// Whether a captured label is a compound release-candidate marker `rc.N`.
pub open spec fn is_rc_label(l: Seq<char>) -> bool {
    l.len() > 3 && l[0] == 'r' && l[1] == 'c' && l[2] == '.' && parses_u32(
        l.subrange(3, l.len() as int),
    )
}

/// The digits of a compound release-candidate label.
pub open spec fn rc_label_digits(l: Seq<char>) -> Seq<char> {
    l.subrange(3, l.len() as int)
}

/// What parsing a tag string yields.
pub open spec fn parse_spec(s: Seq<char>) -> Result<VersionModel, ParseError> {
    match segment_spec(split_on(s, '-')) {
        Err(e) => Err(e),
        Ok((prefix, core, label)) => match core_components(core) {
            Err(e) => Err(e),
            Ok((major, minor, patch)) => Ok(
                match label {
                    Some(l) => if is_rc_label(l) {
                        VersionModel {
                            prefix,
                            major,
                            minor,
                            patch,
                            label: Some(rc_marker()),
                            rc_number: Some(seq_val(rc_label_digits(l))),
                        }
                    } else {
                        VersionModel { prefix, major, minor, patch, label: Some(l), rc_number: None }
                    },
                    None => VersionModel { prefix, major, minor, patch, label: None, rc_number: None },
                },
            ),
        },
    }
}

/// The release-candidate counter, defaulting to zero when absent.
pub open spec fn rc_or_zero(v: VersionModel) -> nat {
    match v.rc_number {
        Some(n) => n,
        None => 0,
    }
}

/// What rendering a version yields: `[prefix-]major.minor.patch[-label]`,
/// with a release-candidate label rendered as `-rc.N`.
pub open spec fn render_spec(v: VersionModel) -> Seq<char> {
    (match v.prefix {
        Some(p) => p + seq!['-'],
        None => Seq::<char>::empty(),
    }) + core_seq(v.major, v.minor, v.patch) + (match v.label {
        Some(l) => if l == rc_marker() {
            seq!['-', 'r', 'c', '.'] + dec(rc_or_zero(v))
        } else {
            seq!['-'] + l
        },
        None => Seq::<char>::empty(),
    })
}

/// The scope step of an increment: bump one numeric component, zero the
/// lower-order ones and clear the label and counter.
pub open spec fn scope_step(v: VersionModel, scope: Option<Seq<char>>) -> Result<
    VersionModel,
    IncrementError,
> {
    match scope {
        None => Ok(v),
        Some(s) => if s == major_word() {
            Ok(
                VersionModel {
                    major: v.major + 1,
                    minor: 0,
                    patch: 0,
                    label: None,
                    rc_number: None,
                    ..v
                },
            )
        } else if s == minor_word() {
            Ok(VersionModel { minor: v.minor + 1, patch: 0, label: None, rc_number: None, ..v })
        } else if s == patch_word() {
            Ok(VersionModel { patch: v.patch + 1, label: None, rc_number: None, ..v })
        } else {
            Err(IncrementError::InvalidScope)
        },
    }
}

/// The option step of an increment: set the qualifier label, bumping the
/// release-candidate counter when the qualifier is `rc`.
pub open spec fn option_step(v: VersionModel, option: Option<Seq<char>>) -> Result<
    VersionModel,
    IncrementError,
> {
    match option {
        None => Ok(v),
        Some(o) => if o == alpha_word() {
            Ok(VersionModel { label: Some(alpha_word()), rc_number: None, ..v })
        } else if o == beta_word() {
            Ok(VersionModel { label: Some(beta_word()), rc_number: None, ..v })
        } else if o == rc_marker() {
            Ok(VersionModel { label: Some(rc_marker()), rc_number: Some(rc_or_zero(v) + 1), ..v })
        } else {
            Err(IncrementError::InvalidOption)
        },
    }
}

/// What incrementing yields: the scope step applied first, then the option
/// step on its result.
pub open spec fn increment_spec(
    v: VersionModel,
    scope: Option<Seq<char>>,
    option: Option<Seq<char>>,
) -> Result<VersionModel, IncrementError> {
    match scope_step(v, scope) {
        Err(e) => Err(e),
        Ok(w) => option_step(w, option),
    }
}

/// The bumped component and counter must stay within `u32`.
pub open spec fn increment_fits(
    v: VersionModel,
    scope: Option<Seq<char>>,
    option: Option<Seq<char>>,
) -> bool {
    &&& (scope == Some(major_word()) ==> v.major < u32::MAX)
    &&& (scope == Some(minor_word()) ==> v.minor < u32::MAX)
    &&& (scope == Some(patch_word()) ==> v.patch < u32::MAX)
    &&& (scope is None && option == Some(rc_marker()) ==> rc_or_zero(v) < u32::MAX)
}

/// Clones an optional string, keeping its view.
fn clone_opt_string(o: &Option<String>) -> (r: Option<String>)
    ensures
        opt_string_view(r) == opt_string_view(*o),
{
    match o {
        Some(s) => Some(s.clone()),
        None => None,
    }
}

impl Version {
    /// Parses a tag string: dash-segments are divided into an optional
    /// prefix, the numeric core and an optional label, with the `semver`
    /// crate deciding which segment is a bare semantic version; a trailing
    /// `rc.N` label becomes the `rc` marker with a counter.
    pub fn parse(version: &str) -> (r: Result<Version, ParseError>)
        ensures
            match (r, parse_spec(version@)) {
                (Ok(v), Ok(m)) => v@ == m,
                (Err(e), Err(f)) => e == f,
                _ => false,
            },
    {
        let parts = split_str(version, '-');
        let ghost pviews = parts@.map_values(|p: String| p@);
        let n = parts.len();
        let prefix: Option<String>;
        let core: String;
        let label: Option<String>;
        if n == 1 {
            prefix = None;
            core = parts[0].clone();
            label = None;
        } else if n == 2 {
            if is_semver(parts[0].as_str()) {
                prefix = None;
                core = parts[0].clone();
                label = Some(parts[1].clone());
            } else {
                prefix = Some(parts[0].clone());
                core = parts[1].clone();
                label = None;
            }
        } else {
            let mut idx: usize = 0;
            let mut found = false;
            while idx < n && !found
                invariant
                    n == parts@.len(),
                    pviews == parts@.map_values(|p: String| p@),
                    0 <= idx <= n,
                    forall|j: int| 0 <= j < idx ==> !semver_accepts(#[trigger] pviews[j]),
                    found ==> idx < n && semver_accepts(pviews[idx as int]),
                decreases n - idx + (if found { 0int } else { 1int }),
            {
                if is_semver(parts[idx].as_str()) {
                    found = true;
                } else {
                    idx = idx + 1;
                }
            }
            proof {
                lemma_first_semver_index(pviews, idx as int);
            }
            if !found {
                return Err(ParseError::NoCoreSegment);
            }
            prefix = if idx == 0 {
                None
            } else {
                Some(join_dash_range(&parts, 0, idx))
            };
            core = parts[idx].clone();
            label = if idx == n - 1 {
                None
            } else {
                Some(join_dash_range(&parts, idx + 1, n))
            };
        }
        let ghost seg = segment_spec(pviews)->Ok_0;
        proof {
            assert(segment_spec(pviews) is Ok);
            assert(opt_string_view(prefix) == seg.0);
            assert(core@ == seg.1);
            assert(opt_string_view(label) == seg.2);
        }
        let cparts = split_str(core.as_str(), '.');
        if cparts.len() < 3 {
            return Err(ParseError::MissingComponents);
        }
        let major = match parse_u32_digits(cparts[0].as_str()) {
            Some(x) => x,
            None => {
                return Err(ParseError::InvalidMajor);
            },
        };
        let minor = match parse_u32_digits(cparts[1].as_str()) {
            Some(x) => x,
            None => {
                return Err(ParseError::InvalidMinor);
            },
        };
        let patch = match parse_u32_digits(cparts[2].as_str()) {
            Some(x) => x,
            None => {
                return Err(ParseError::InvalidPatch);
            },
        };
        let final_label: Option<String>;
        let rc_number: Option<u32>;
        match label {
            None => {
                final_label = None;
                rc_number = None;
            },
            Some(l) => {
                let llen = l.as_str().unicode_len();
                let compound = llen > 3 && l.as_str().get_char(0) == 'r' && l.as_str().get_char(1)
                    == 'c' && l.as_str().get_char(2) == '.';
                if compound {
                    let digits = l.as_str().substring_char(3, llen);
                    proof {
                        assert(digits@ == rc_label_digits(l@));
                    }
                    match parse_u32_digits(digits) {
                        Some(d) => {
                            final_label = Some(String::from_str("rc"));
                            rc_number = Some(d);
                            proof {
                                reveal_strlit("rc");
                                assert("rc"@ =~= rc_marker());
                                assert(is_rc_label(l@));
                            }
                        },
                        None => {
                            final_label = Some(l);
                            rc_number = None;
                            proof {
                                assert(!is_rc_label(l@));
                            }
                        },
                    }
                } else {
                    final_label = Some(l);
                    rc_number = None;
                    proof {
                        assert(!is_rc_label(l@));
                    }
                }
            },
        }
        let result = Version { prefix, major, minor, patch, label: final_label, rc_number };
        proof {
            assert(result@ =~~= parse_spec(version@)->Ok_0);
        }
        Ok(result)
    }

    /// Renders the version as `[prefix-]major.minor.patch[-label]`; a
    /// release-candidate label is rendered as `-rc.N`, with an absent
    /// counter defaulting to zero. Total: every version renders.
    pub fn render(&self) -> (r: String)
        ensures
            r@ == render_spec(self@),
    {
        proof {
            reveal_strlit("-");
            reveal_strlit(".");
            reveal_strlit("rc");
            reveal_strlit("-rc.");
            assert("-"@ =~= seq!['-']);
            assert("."@ =~= seq!['.']);
            assert("rc"@ =~= rc_marker());
            assert("-rc."@ =~= seq!['-', 'r', 'c', '.']);
        }
        let mut out = String::new();
        match &self.prefix {
            Some(p) => {
                out.append(p.as_str());
                out.append("-");
            },
            None => {},
        }
        let ms = u32_to_string(self.major);
        out.append(ms.as_str());
        out.append(".");
        let ns = u32_to_string(self.minor);
        out.append(ns.as_str());
        out.append(".");
        let ps = u32_to_string(self.patch);
        out.append(ps.as_str());
        match &self.label {
            Some(l) => {
                if str_eq(l.as_str(), "rc") {
                    out.append("-rc.");
                    let rc = match self.rc_number {
                        Some(x) => x,
                        None => 0,
                    };
                    let rs = u32_to_string(rc);
                    out.append(rs.as_str());
                } else {
                    out.append("-");
                    out.append(l.as_str());
                }
            },
            None => {},
        }
        proof {
            assert(out@ =~= render_spec(self@));
        }
        out
    }

    /// Bumps the version by an optional scope (`major`, `minor`, `patch`)
    /// and an optional qualifier (`alpha`, `beta`, `rc`), scope first.
    /// Any other token is rejected and `self` is left untouched.
    pub fn increment(&self, scope: Option<&str>, option: Option<&str>) -> (r: Result<
        Version,
        IncrementError,
    >)
        requires
            increment_fits(self@, opt_str_view(scope), opt_str_view(option)),
        ensures
            match (r, increment_spec(self@, opt_str_view(scope), opt_str_view(option))) {
                (Ok(v), Ok(m)) => v@ == m,
                (Err(e), Err(f)) => e == f,
                _ => false,
            },
    {
        proof {
            reveal_strlit("major");
            reveal_strlit("minor");
            reveal_strlit("patch");
            reveal_strlit("alpha");
            reveal_strlit("beta");
            reveal_strlit("rc");
            assert("major"@ =~= major_word());
            assert("minor"@ =~= minor_word());
            assert("patch"@ =~= patch_word());
            assert("alpha"@ =~= alpha_word());
            assert("beta"@ =~= beta_word());
            assert("rc"@ =~= rc_marker());
        }
        let mut major = self.major;
        let mut minor = self.minor;
        let mut patch = self.patch;
        let mut label: Option<String> = clone_opt_string(&self.label);
        let mut rc_number: Option<u32> = self.rc_number;
        match scope {
            None => {},
            Some(s) => {
                if str_eq(s, "major") {
                    major = major + 1;
                    minor = 0;
                    patch = 0;
                    label = None;
                    rc_number = None;
                } else if str_eq(s, "minor") {
                    minor = minor + 1;
                    patch = 0;
                    label = None;
                    rc_number = None;
                } else if str_eq(s, "patch") {
                    patch = patch + 1;
                    label = None;
                    rc_number = None;
                } else {
                    return Err(IncrementError::InvalidScope);
                }
            },
        }
        match option {
            None => {},
            Some(o) => {
                if str_eq(o, "alpha") {
                    label = Some(String::from_str("alpha"));
                    rc_number = None;
                } else if str_eq(o, "beta") {
                    label = Some(String::from_str("beta"));
                    rc_number = None;
                } else if str_eq(o, "rc") {
                    let base = match rc_number {
                        Some(x) => x,
                        None => 0,
                    };
                    rc_number = Some(base + 1);
                    label = Some(String::from_str("rc"));
                } else {
                    return Err(IncrementError::InvalidOption);
                }
            },
        }
        let result = Version {
            prefix: clone_opt_string(&self.prefix),
            major,
            minor,
            patch,
            label,
            rc_number,
        };
        proof {
            assert(result@ =~~= increment_spec(
                self@,
                opt_str_view(scope),
                opt_str_view(option),
            )->Ok_0);
        }
        Ok(result)
    }
}

/// Scope monotonicity: bumping a scope increases exactly that component by
/// one, zeroes the lower-order components, leaves the higher-order ones and
/// the prefix unchanged, and clears the label and counter.
pub proof fn lemma_scope_monotonic(v: VersionModel)
    ensures
        increment_spec(v, Some(major_word()), None) == Ok::<VersionModel, IncrementError>(
            VersionModel { major: v.major + 1, minor: 0, patch: 0, label: None, rc_number: None, ..v },
        ),
        increment_spec(v, Some(minor_word()), None) == Ok::<VersionModel, IncrementError>(
            VersionModel { minor: v.minor + 1, patch: 0, label: None, rc_number: None, ..v },
        ),
        increment_spec(v, Some(patch_word()), None) == Ok::<VersionModel, IncrementError>(
            VersionModel { patch: v.patch + 1, label: None, rc_number: None, ..v },
        ),
{
    assert(major_word()[1] == 'a' && minor_word()[1] == 'i');
    assert(patch_word()[0] == 'p' && major_word()[0] == 'm');
}

/// Label-clearing: any scope bump clears the label and the
/// release-candidate counter, whatever the prior state.
pub proof fn lemma_scope_clears_label(v: VersionModel, s: Seq<char>)
    requires
        s == major_word() || s == minor_word() || s == patch_word(),
    ensures
        scope_step(v, Some(s)) matches Ok(w) && w.label is None && w.rc_number is None,
{
}

/// The release-candidate counter: an `rc` option with no scope bump sets the
/// label to the `rc` marker and increments the counter by exactly one,
/// starting from one when it was absent.
pub proof fn lemma_rc_counter(v: VersionModel)
    ensures
        increment_spec(v, None, Some(rc_marker())) == Ok::<VersionModel, IncrementError>(
            VersionModel { label: Some(rc_marker()), rc_number: Some(rc_or_zero(v) + 1), ..v },
        ),
        v.rc_number is None ==> increment_spec(v, None, Some(rc_marker()))->Ok_0.rc_number
            == Some(1nat),
{
    assert(rc_marker() != alpha_word() && rc_marker() != beta_word());
}

/// Ordering of operations: applying a scope and an option in one call is the
/// same as applying the scope alone and then the option alone, in that order.
pub proof fn lemma_scope_then_option(
    v: VersionModel,
    scope: Option<Seq<char>>,
    option: Option<Seq<char>>,
)
    ensures
        increment_spec(v, scope, option) == (match increment_spec(v, scope, None) {
            Ok(w) => increment_spec(w, None, option),
            Err(e) => Err(e),
        }),
{
}

/// Invalid tokens: a scope outside `major`/`minor`/`patch` fails with the
/// invalid-scope error, whatever the option; an option outside
/// `alpha`/`beta`/`rc` fails with the invalid-option error whenever the
/// scope step succeeds. (`increment` takes `&self`, so nothing is mutated.)
pub proof fn lemma_invalid_tokens(
    v: VersionModel,
    scope: Option<Seq<char>>,
    option: Option<Seq<char>>,
)
    ensures
        scope matches Some(s) && s != major_word() && s != minor_word() && s != patch_word()
            ==> increment_spec(v, scope, option) == Err::<VersionModel, IncrementError>(
            IncrementError::InvalidScope,
        ),
        scope_step(v, scope) is Ok && (option matches Some(o) && o != alpha_word()
            && o != beta_word() && o != rc_marker()) ==> increment_spec(v, scope, option)
            == Err::<VersionModel, IncrementError>(IncrementError::InvalidOption),
{
}

/// A rendered numeric core holds no dash and parses back into its three
/// components.
pub proof fn lemma_core_props(major: nat, minor: nat, patch: nat)
    requires
        major <= u32::MAX,
        minor <= u32::MAX,
        patch <= u32::MAX,
    ensures
        forall|i: int| 0 <= i < core_seq(major, minor, patch).len()
            ==> #[trigger] core_seq(major, minor, patch)[i] != '-',
        core_components(core_seq(major, minor, patch)) == Ok::<(nat, nat, nat), ParseError>(
            (major, minor, patch),
        ),
{
    crate::strutil::lemma_dec_val(major);
    crate::strutil::lemma_dec_val(minor);
    crate::strutil::lemma_dec_val(patch);
    let a = dec(major);
    let b = dec(minor);
    let c = dec(patch);
    let core = core_seq(major, minor, patch);
    assert forall|i: int| 0 <= i < core.len() implies #[trigger] core[i] != '-' by {
        if i < a.len() {
            assert(core[i] == a[i]);
            assert(crate::is_digit(a[i]));
        } else if i == a.len() {
            assert(core[i] == '.');
        } else if i < a.len() + 1 + b.len() {
            assert(core[i] == b[i - a.len() - 1]);
            assert(crate::is_digit(b[i - a.len() - 1]));
        } else if i == a.len() + 1 + b.len() {
            assert(core[i] == '.');
        } else {
            assert(core[i] == c[i - a.len() - b.len() - 2]);
            assert(crate::is_digit(c[i - a.len() - b.len() - 2]));
        }
    }
    assert forall|i: int| 0 <= i < a.len() implies a[i] != '.' by {
        assert(crate::is_digit(a[i]));
    }
    assert forall|i: int| 0 <= i < b.len() implies b[i] != '.' by {
        assert(crate::is_digit(b[i]));
    }
    assert forall|i: int| 0 <= i < c.len() implies c[i] != '.' by {
        assert(crate::is_digit(c[i]));
    }
    let rest = b + seq!['.'] + c;
    assert(core =~= a + seq!['.'] + rest);
    crate::strutil::lemma_split_app(a, rest, '.');
    crate::strutil::lemma_split_app(b, c, '.');
    crate::strutil::lemma_split_no_sep(a, '.');
    crate::strutil::lemma_split_no_sep(b, '.');
    crate::strutil::lemma_split_no_sep(c, '.');
    let cp = split_on(core, '.');
    assert(cp =~~= seq![a, b, c]);
    assert(parses_u32(a));
    assert(parses_u32(b));
    assert(parses_u32(c));
}

/// The conditions under which a version survives a render–parse round trip:
/// its components fit `u32`, its label is not itself a compound `rc.N`
/// marker, and it carries a counter exactly when its label is the `rc`
/// marker.
pub open spec fn canonical(v: VersionModel) -> bool {
    &&& v.major <= u32::MAX
    &&& v.minor <= u32::MAX
    &&& v.patch <= u32::MAX
    &&& match v.label {
        Some(l) => !is_rc_label(l) && (l == rc_marker() <==> v.rc_number is Some),
        None => v.rc_number is None,
    }
    &&& match v.rc_number {
        Some(n) => n <= u32::MAX,
        None => true,
    }
}

/// The dash-free body that the label contributes to a rendering.
pub open spec fn label_body(v: VersionModel) -> Seq<char> {
    match v.label {
        Some(l) => if l == rc_marker() {
            seq!['r', 'c', '.'] + dec(rc_or_zero(v))
        } else {
            l
        },
        None => Seq::<char>::empty(),
    }
}

/// Round trip: parsing a rendered canonical version reproduces it field for
/// field, provided the semantic-version classifier accepts the rendered core
/// and rejects every dash-segment of the prefix (the classifier is heuristic:
/// a prefix that itself looks like a bare version is misread, and is excluded
/// here).
pub proof fn lemma_parse_render_roundtrip(v: VersionModel)
    requires
        canonical(v),
        v.prefix is Some || v.label is Some ==> semver_accepts(
            core_seq(v.major, v.minor, v.patch),
        ),
        match v.prefix {
            Some(p) => forall|i: int|
                0 <= i < split_on(p, '-').len() ==> !semver_accepts(
                    #[trigger] split_on(p, '-')[i],
                ),
            None => true,
        },
    ensures
        parse_spec(render_spec(v)) == Ok::<VersionModel, ParseError>(v),
{
    let core = core_seq(v.major, v.minor, v.patch);
    lemma_core_props(v.major, v.minor, v.patch);
    let s = render_spec(v);
    let parts = split_on(s, '-');
    let seg = segment_spec(parts);
    let lb = label_body(v);
    // Stage one: the rendered string splits back into prefix, core and label.
    match (v.prefix, v.label) {
        (None, None) => {
            assert(s =~= core);
            crate::strutil::lemma_split_no_sep(core, '-');
            assert(parts =~~= seq![core]);
            assert(seg == Ok::<_, ParseError>((None::<Seq<char>>, core, None::<Seq<char>>)));
        },
        (None, Some(l)) => {
            assert(s =~= core + seq!['-'] + lb);
            crate::strutil::lemma_split_app(core, lb, '-');
            crate::strutil::lemma_split_no_sep(core, '-');
            crate::strutil::lemma_split_len(lb, '-');
            crate::strutil::lemma_join_split(lb, '-');
            let lparts = split_on(lb, '-');
            assert(parts =~~= seq![core] + lparts);
            if lparts.len() == 1 {
                assert(parts.len() == 2);
                assert(parts[0] == core);
                assert(lparts[0] == join_on(lparts, '-'));
                assert(parts[1] == lb);
                assert(seg == Ok::<_, ParseError>((None::<Seq<char>>, core, Some(lb))));
            } else {
                assert(parts.len() >= 3);
                assert(semver_accepts(parts[0]));
                lemma_first_semver_index(parts, 0);
                assert(first_semver_index(parts) == Some(0int));
                let tail = parts.subrange(1, parts.len() as int);
                assert(tail =~~= lparts);
                assert(seg == Ok::<_, ParseError>((None::<Seq<char>>, core, Some(lb))));
            }
        },
        (Some(p), None) => {
            let pparts = split_on(p, '-');
            crate::strutil::lemma_split_len(p, '-');
            crate::strutil::lemma_join_split(p, '-');
            assert(s =~= p + seq!['-'] + core);
            crate::strutil::lemma_split_app(p, core, '-');
            crate::strutil::lemma_split_no_sep(core, '-');
            assert(parts =~~= pparts + seq![core]);
            let q = pparts.len() as int;
            if q == 1 {
                assert(parts.len() == 2);
                assert(parts[0] == pparts[0]);
                assert(!semver_accepts(parts[0]));
                assert(pparts[0] == join_on(pparts, '-'));
                assert(seg == Ok::<_, ParseError>((Some(p), core, None::<Seq<char>>)));
            } else {
                assert(parts.len() >= 3);
                assert(forall|j: int| 0 <= j < q ==> parts[j] == pparts[j]);
                assert(parts[q] == core);
                lemma_first_semver_index(parts, q);
                assert(first_semver_index(parts) == Some(q));
                assert(parts.subrange(0, q) =~~= pparts);
                assert(q == parts.len() - 1);
                assert(seg == Ok::<_, ParseError>((Some(p), core, None::<Seq<char>>)));
            }
        },
        (Some(p), Some(l)) => {
            let pparts = split_on(p, '-');
            crate::strutil::lemma_split_len(p, '-');
            crate::strutil::lemma_join_split(p, '-');
            crate::strutil::lemma_split_len(lb, '-');
            crate::strutil::lemma_join_split(lb, '-');
            let lparts = split_on(lb, '-');
            assert(s =~= p + seq!['-'] + (core + seq!['-'] + lb));
            crate::strutil::lemma_split_app(p, core + seq!['-'] + lb, '-');
            crate::strutil::lemma_split_app(core, lb, '-');
            crate::strutil::lemma_split_no_sep(core, '-');
            assert(parts =~~= pparts + seq![core] + lparts);
            let q = pparts.len() as int;
            assert(parts.len() == q + 1 + lparts.len());
            assert(parts.len() >= 3);
            assert(forall|j: int| 0 <= j < q ==> parts[j] == pparts[j]);
            assert(parts[q] == core);
            lemma_first_semver_index(parts, q);
            assert(first_semver_index(parts) == Some(q));
            assert(parts.subrange(0, q) =~~= pparts);
            assert(q < parts.len() - 1);
            let tail = parts.subrange(q + 1, parts.len() as int);
            assert(tail =~~= lparts);
            assert(seg == Ok::<_, ParseError>((Some(p), core, Some(lb))));
        },
    }
    // Stage two: the captured label reproduces the label and the counter.
    match v.label {
        None => {
            assert(parse_spec(s)->Ok_0 =~~= v);
        },
        Some(l) => {
            if l == rc_marker() {
                let n = rc_or_zero(v);
                crate::strutil::lemma_dec_val(n);
                assert(lb =~= seq!['r', 'c', '.'] + dec(n));
                assert(lb[0] == 'r' && lb[1] == 'c' && lb[2] == '.');
                assert(rc_label_digits(lb) =~= dec(n));
                assert(is_rc_label(lb));
                assert(v.rc_number == Some(n));
                assert(parse_spec(s)->Ok_0 =~~= v);
            } else {
                assert(!is_rc_label(lb));
                assert(v.rc_number is None);
                assert(parse_spec(s)->Ok_0 =~~= v);
            }
        },
    }
    assert(parse_spec(s) is Ok);
}

} // verus!
