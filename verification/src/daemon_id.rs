//! Namespaced daemon identifiers.
use crate::error::DaemonIdError;
use crate::text;
use crate::text::{chars_of, contains_char, contains_text, split_once_on, text_eq};
use vstd::prelude::*;

verus! {

/// Why a text is not accepted as an identifier.
pub enum IdFault {
    Empty,
    EmptyComponent(Seq<char>),
    PathSeparator(Seq<char>, char),
    ParentDirRef(Seq<char>),
    ReservedSequence(Seq<char>),
    LeadingTrailingDash(Seq<char>),
    ContainsSpace(Seq<char>),
    CurrentDir,
    InvalidChars(Seq<char>),
    MissingNamespace(Seq<char>),
    InvalidSafePath(Seq<char>),
}

impl DaemonIdError {
    /// The fault that the error reports.
    pub open spec fn fault(&self) -> IdFault {
        match self {
            DaemonIdError::Empty => IdFault::Empty,
            DaemonIdError::EmptyComponent { component } => IdFault::EmptyComponent(component@),
            DaemonIdError::PathSeparator { id, sep } => IdFault::PathSeparator(id@, *sep),
            DaemonIdError::ParentDirRef { id } => IdFault::ParentDirRef(id@),
            DaemonIdError::ReservedSequence { id } => IdFault::ReservedSequence(id@),
            DaemonIdError::LeadingTrailingDash { id } => IdFault::LeadingTrailingDash(id@),
            DaemonIdError::ContainsSpace { id } => IdFault::ContainsSpace(id@),
            DaemonIdError::CurrentDir => IdFault::CurrentDir,
            DaemonIdError::InvalidChars { id } => IdFault::InvalidChars(id@),
            DaemonIdError::MissingNamespace { id } => IdFault::MissingNamespace(id@),
            DaemonIdError::InvalidSafePath { path } => IdFault::InvalidSafePath(path@),
        }
    }
}

/// Whether a character may stand in a component of an identifier.
pub open spec fn id_char(c: char) -> bool {
    ||| 'a' <= c <= 'z'
    ||| 'A' <= c <= 'Z'
    ||| '0' <= c <= '9'
    ||| c == '_'
    ||| c == '-'
    ||| c == '.'
}

/// The first rule that a component breaks, where it breaks one.
///
/// `part` names the component in the error about an empty one.
pub open spec fn component_fault(part: Seq<char>, s: Seq<char>) -> Option<IdFault> {
    if s.len() == 0 {
        Some(IdFault::EmptyComponent(part))
    } else if s.contains('/') {
        Some(IdFault::PathSeparator(s, '/'))
    } else if s.contains('\\') {
        Some(IdFault::PathSeparator(s, '\\'))
    } else if text::occurs_in(".."@, s) {
        Some(IdFault::ParentDirRef(s))
    } else if text::occurs_in("--"@, s) {
        Some(IdFault::ReservedSequence(s))
    } else if s.first() == '-' || s.last() == '-' {
        Some(IdFault::LeadingTrailingDash(s))
    } else if s.contains(' ') {
        Some(IdFault::ContainsSpace(s))
    } else if s == "."@ {
        Some(IdFault::CurrentDir)
    } else if exists|i: int| 0 <= i < s.len() && !id_char(#[trigger] s[i]) {
        Some(IdFault::InvalidChars(s))
    } else {
        None
    }
}

/// Whether a text is accepted as a namespace or a name.
pub open spec fn valid_component(s: Seq<char>) -> bool {
    component_fault(Seq::empty(), s) is None
}

/// The first rule that a pair of namespace and name breaks, where it breaks one.
pub open spec fn pair_fault(namespace: Seq<char>, name: Seq<char>) -> Option<IdFault> {
    match component_fault("namespace"@, namespace) {
        Some(fault) => Some(fault),
        None => component_fault("name"@, name),
    }
}

/// The first rule that a qualified identifier breaks, where it breaks one.
pub open spec fn qualified_fault(s: Seq<char>) -> Option<IdFault> {
    if s.len() == 0 {
        Some(IdFault::Empty)
    } else {
        match text::split_once(s, "/"@) {
            Some(parts) => if parts.1.contains('/') {
                Some(IdFault::PathSeparator(s, '/'))
            } else {
                pair_fault(parts.0, parts.1)
            },
            None => Some(IdFault::MissingNamespace(s)),
        }
    }
}

/// The first rule that a safe path breaks, where it breaks one.
pub open spec fn safe_path_fault(s: Seq<char>) -> Option<IdFault> {
    match text::split_once(s, "--"@) {
        Some(parts) => pair_fault(parts.0, parts.1),
        None => Some(IdFault::InvalidSafePath(s)),
    }
}

/// The qualified form of an identifier: `namespace/name`.
pub open spec fn qualified_text(namespace: Seq<char>, name: Seq<char>) -> Seq<char> {
    namespace + "/"@ + name
}

/// The form of an identifier that is safe as a file name: `namespace--name`.
pub open spec fn safe_text(namespace: Seq<char>, name: Seq<char>) -> Seq<char> {
    namespace + "--"@ + name
}

/// A namespaced daemon identifier; both of its parts follow the naming rules.
#[derive(Debug)]
pub struct DaemonId {
    namespace: String,
    name: String,
}

impl View for DaemonId {
    type V = (Seq<char>, Seq<char>);

    closed spec fn view(&self) -> (Seq<char>, Seq<char>) {
        (self.namespace@, self.name@)
    }
}

fn is_id_char(c: char) -> (r: bool)
    ensures
        r == id_char(c),
{
    ('a' <= c && c <= 'z') || ('A' <= c && c <= 'Z') || ('0' <= c && c <= '9') || c == '_' || c
        == '-' || c == '.'
}

/// Checks a component against the naming rules.
fn check_component(part: &str, s: &str) -> (r: Result<(), DaemonIdError>)
    ensures
        match r {
            Ok(_) => component_fault(part@, s@) is None,
            Err(e) => component_fault(part@, s@) == Some(e.fault()),
        },
{
    let v = chars_of(s);
    if v.len() == 0 {
        return Err(DaemonIdError::EmptyComponent { component: part.to_string() });
    }
    if contains_char(s, '/') {
        return Err(DaemonIdError::PathSeparator { id: s.to_string(), sep: '/' });
    }
    if contains_char(s, '\\') {
        return Err(DaemonIdError::PathSeparator { id: s.to_string(), sep: '\\' });
    }
    if contains_text(s, "..") {
        return Err(DaemonIdError::ParentDirRef { id: s.to_string() });
    }
    if contains_text(s, "--") {
        return Err(DaemonIdError::ReservedSequence { id: s.to_string() });
    }
    if v[0] == '-' || v[v.len() - 1] == '-' {
        return Err(DaemonIdError::LeadingTrailingDash { id: s.to_string() });
    }
    if contains_char(s, ' ') {
        return Err(DaemonIdError::ContainsSpace { id: s.to_string() });
    }
    if text_eq(s, ".") {
        return Err(DaemonIdError::CurrentDir);
    }
    let mut i: usize = 0;
    while i < v.len()
        invariant
            v@ == s@,
            i <= v@.len(),
            forall|k: int| 0 <= k < i ==> id_char(#[trigger] s@[k]),
        ensures
            i <= v@.len(),
            forall|k: int| 0 <= k < i ==> id_char(#[trigger] s@[k]),
            i < v@.len() ==> !id_char(s@[i as int]),
        decreases v@.len() - i,
    {
        if !is_id_char(v[i]) {
            break;
        }
        i = i + 1;
    }
    if i < v.len() {
        return Err(DaemonIdError::InvalidChars { id: s.to_string() });
    }
    Ok(())
}

impl DaemonId {
    #[verifier::type_invariant]
    spec fn follows_rules(self) -> bool {
        valid_component(self.namespace@) && valid_component(self.name@)
    }

    /// The identifier of a daemon in a namespace.
    pub fn try_new(namespace: &str, name: &str) -> (r: Result<DaemonId, DaemonIdError>)
        ensures
            match r {
                Ok(id) => pair_fault(namespace@, name@) is None && id@ == (namespace@, name@),
                Err(e) => pair_fault(namespace@, name@) == Some(e.fault()),
            },
    {
        match check_component("namespace", namespace) {
            Ok(_) => {},
            Err(e) => {
                return Err(e);
            },
        }
        match check_component("name", name) {
            Ok(_) => {},
            Err(e) => {
                return Err(e);
            },
        }
        Ok(DaemonId { namespace: namespace.to_string(), name: name.to_string() })
    }

    /// Reads a qualified identifier, `namespace/name`.
    pub fn parse(s: &str) -> (r: Result<DaemonId, DaemonIdError>)
        ensures
            match r {
                Ok(id) => qualified_fault(s@) is None && text::split_once(s@, "/"@) == Some(id@),
                Err(e) => qualified_fault(s@) == Some(e.fault()),
            },
    {
        if s.is_empty() {
            return Err(DaemonIdError::Empty);
        }
        match split_once_on(s, "/") {
            Some((namespace, name)) => {
                if contains_char(name.as_str(), '/') {
                    Err(DaemonIdError::PathSeparator { id: s.to_string(), sep: '/' })
                } else {
                    DaemonId::try_new(namespace.as_str(), name.as_str())
                }
            },
            None => Err(DaemonIdError::MissingNamespace { id: s.to_string() }),
        }
    }

    /// Reads the form that is safe as a file name, `namespace--name`.
    pub fn from_safe_path(s: &str) -> (r: Result<DaemonId, DaemonIdError>)
        ensures
            match r {
                Ok(id) => safe_path_fault(s@) is None && text::split_once(s@, "--"@) == Some(id@),
                Err(e) => safe_path_fault(s@) == Some(e.fault()),
            },
    {
        match split_once_on(s, "--") {
            Some((namespace, name)) => DaemonId::try_new(namespace.as_str(), name.as_str()),
            None => Err(DaemonIdError::InvalidSafePath { path: s.to_string() }),
        }
    }

    /// The identifier of the supervisor itself.
    pub fn pitchfork() -> (r: DaemonId)
        ensures
            r@ == ("global"@, "pitchfork"@),
    {
        proof {
            reveal_strlit("global");
            reveal_strlit("pitchfork");
            lemma_plain_word_valid("global"@);
            lemma_plain_word_valid("pitchfork"@);
        }
        DaemonId { namespace: "global".to_string(), name: "pitchfork".to_string() }
    }

    /// The namespace.
    pub fn namespace(&self) -> (r: &str)
        ensures
            r@ == self@.0,
            valid_component(r@),
    {
        proof { use_type_invariant(self); }
        self.namespace.as_str()
    }

    /// The name within the namespace.
    pub fn name(&self) -> (r: &str)
        ensures
            r@ == self@.1,
            valid_component(r@),
    {
        proof { use_type_invariant(self); }
        self.name.as_str()
    }

    /// The qualified form, `namespace/name`.
    pub fn qualified(&self) -> (r: String)
        ensures
            r@ == qualified_text(self@.0, self@.1),
    {
        self.namespace.clone().concat("/").concat(self.name.as_str())
    }

    /// The form that is safe as a file name, `namespace--name`.
    pub fn safe_path(&self) -> (r: String)
        ensures
            r@ == safe_text(self@.0, self@.1),
    {
        self.namespace.clone().concat("--").concat(self.name.as_str())
    }

    /// Whether two identifiers are the same.
    pub fn same(&self, other: &DaemonId) -> (r: bool)
        ensures
            r == (self@ == other@),
    {
        text_eq(self.namespace.as_str(), other.namespace.as_str()) && text_eq(
            self.name.as_str(),
            other.name.as_str(),
        )
    }

    /// A copy of the identifier.
    pub fn duplicate(&self) -> (r: DaemonId)
        ensures
            r@ == self@,
    {
        proof { use_type_invariant(self); }
        DaemonId { namespace: self.namespace.clone(), name: self.name.clone() }
    }
}

/// A word of letters follows the naming rules.
proof fn lemma_plain_word_valid(s: Seq<char>)
    requires
        s.len() > 1,
        forall|i: int| 0 <= i < s.len() ==> 'a' <= #[trigger] s[i] <= 'z',
    ensures
        valid_component(s),
{
    reveal_strlit("..");
    reveal_strlit("--");
    reveal_strlit(".");
    assert forall|at: int| !#[trigger] text::occurs_at(".."@, s, at) by {
        if text::occurs_at(".."@, s, at) {
            assert(s.subrange(at, at + 2)[0] == s[at]);
        }
    }
    assert forall|at: int| !#[trigger] text::occurs_at("--"@, s, at) by {
        if text::occurs_at("--"@, s, at) {
            assert(s.subrange(at, at + 2)[0] == s[at]);
        }
    }
}

/// Reading the qualified form of an identifier gives the identifier back.
pub proof fn qualified_form_is_read_back(namespace: Seq<char>, name: Seq<char>)
    requires
        valid_component(namespace),
        valid_component(name),
    ensures
        qualified_fault(qualified_text(namespace, name)) is None,
        text::split_once(qualified_text(namespace, name), "/"@) == Some((namespace, name)),
{
    reveal_strlit("/");
    let s = qualified_text(namespace, name);
    let at = namespace.len() as int;
    assert(s[at] == '/');
    assert(s.subrange(at, at + 1) =~= "/"@);
    assert forall|k: int| 0 <= k < at implies !#[trigger] text::occurs_at("/"@, s, k) by {
        if text::occurs_at("/"@, s, k) {
            assert(s.subrange(k, k + 1)[0] == s[k]);
            assert(namespace[k] == '/');
        }
    }
    text::lemma_found_first("/"@, s, 0, at);
    assert(s.take(at) =~= namespace);
    assert(s.skip(at + 1) =~= name);
}

/// Reading the safe path of an identifier gives the identifier back.
pub proof fn safe_path_is_read_back(namespace: Seq<char>, name: Seq<char>)
    requires
        valid_component(namespace),
        valid_component(name),
    ensures
        safe_path_fault(safe_text(namespace, name)) is None,
        text::split_once(safe_text(namespace, name), "--"@) == Some((namespace, name)),
{
    reveal_strlit("--");
    let s = safe_text(namespace, name);
    let at = namespace.len() as int;
    assert(s[at] == '-' && s[at + 1] == '-');
    assert(s.subrange(at, at + 2) =~= "--"@);
    assert forall|k: int| 0 <= k < at implies !#[trigger] text::occurs_at("--"@, s, k) by {
        if text::occurs_at("--"@, s, k) {
            assert(s.subrange(k, k + 2)[0] == s[k]);
            assert(s.subrange(k, k + 2)[1] == s[k + 1]);
            if k + 1 < at {
                assert(namespace.subrange(k, k + 2) =~= "--"@);
                assert(text::occurs_at("--"@, namespace, k));
            } else {
                assert(namespace.last() == '-');
            }
        }
    }
    text::lemma_found_first("--"@, s, 0, at);
    assert(s.take(at) =~= namespace);
    assert(s.skip(at + 2) =~= name);
}

/// A text that is read as a qualified identifier is the qualified form of what is read.
pub proof fn lemma_split_is_qualified(s: Seq<char>)
    requires
        qualified_fault(s) is None,
    ensures
        text::split_once(s, "/"@) matches Some(parts) && qualified_text(parts.0, parts.1) == s
            && valid_component(parts.0) && valid_component(parts.1),
{
    let parts = text::split_once(s, "/"@)->0;
    text::lemma_split_joins(s, "/"@);
    assert(qualified_text(parts.0, parts.1) =~= s);
}

/// Two identifiers with the same qualified form, or with the same safe path, are the same.
pub proof fn forms_identify(a: (Seq<char>, Seq<char>), b: (Seq<char>, Seq<char>))
    requires
        valid_component(a.0) && valid_component(a.1),
        valid_component(b.0) && valid_component(b.1),
    ensures
        qualified_text(a.0, a.1) == qualified_text(b.0, b.1) ==> a == b,
        safe_text(a.0, a.1) == safe_text(b.0, b.1) ==> a == b,
{
    qualified_form_is_read_back(a.0, a.1);
    qualified_form_is_read_back(b.0, b.1);
    safe_path_is_read_back(a.0, a.1);
    safe_path_is_read_back(b.0, b.1);
}

/// A namespace or a name is accepted exactly where it has a character, holds letters, digits,
/// underscores, dashes and dots only, has no two dots and no two dashes next to each other, has no
/// dash at an end, and is not a single dot.
pub proof fn names_follow_the_rules(s: Seq<char>)
    ensures
        valid_component(s) <==> {
            &&& s.len() > 0
            &&& forall|i: int|
                0 <= i < s.len() ==> ('a' <= #[trigger] s[i] <= 'z' || 'A' <= s[i] <= 'Z' || '0'
                    <= s[i] <= '9' || s[i] == '_' || s[i] == '-' || s[i] == '.')
            &&& !text::occurs_in(".."@, s)
            &&& !text::occurs_in("--"@, s)
            &&& s[0] != '-'
            &&& s[s.len() - 1] != '-'
            &&& s != "."@
        },
{
    if s.len() > 0 && (forall|i: int|
        0 <= i < s.len() ==> ('a' <= #[trigger] s[i] <= 'z' || 'A' <= s[i] <= 'Z' || '0' <= s[i]
            <= '9' || s[i] == '_' || s[i] == '-' || s[i] == '.')) {
        assert forall|i: int| 0 <= i < s.len() implies id_char(#[trigger] s[i]) by {}
        assert(!s.contains('/'));
        assert(!s.contains('\\'));
        assert(!s.contains(' '));
    }
    if valid_component(s) {
        assert forall|i: int| 0 <= i < s.len() implies ('a' <= #[trigger] s[i] <= 'z' || 'A'
            <= s[i] <= 'Z' || '0' <= s[i] <= '9' || s[i] == '_' || s[i] == '-' || s[i] == '.') by {
            assert(id_char(s[i]));
        }
    }
}

/// What is reported of a namespace or a name that is not accepted is so, and the part that is
/// empty is named.
pub proof fn reported_faults_are_there(part: Seq<char>, s: Seq<char>)
    ensures
        component_fault(part, s) is Some <==> !valid_component(s),
        s.len() == 0 ==> component_fault(part, s) == Some(IdFault::EmptyComponent(part)),
        s.contains('/') ==> component_fault(part, s) == Some(IdFault::PathSeparator(s, '/')),
        s.contains('\\') && !s.contains('/') ==> component_fault(part, s) == Some(
            IdFault::PathSeparator(s, '\\'),
        ),
        match component_fault(part, s) {
            None => true,
            Some(IdFault::EmptyComponent(p)) => p == part && s.len() == 0,
            Some(IdFault::PathSeparator(t, c)) => t == s && s.contains(c) && (c == '/' || c
                == '\\'),
            Some(IdFault::ParentDirRef(t)) => t == s && text::occurs_in(".."@, s),
            Some(IdFault::ReservedSequence(t)) => t == s && text::occurs_in("--"@, s),
            Some(IdFault::LeadingTrailingDash(t)) => t == s && s.len() > 0 && (s[0] == '-'
                || s[s.len() - 1] == '-'),
            Some(IdFault::ContainsSpace(t)) => t == s && s.contains(' '),
            Some(IdFault::CurrentDir) => s == "."@,
            Some(IdFault::InvalidChars(t)) => t == s && exists|i: int|
                0 <= i < s.len() && !('a' <= #[trigger] s[i] <= 'z' || 'A' <= s[i] <= 'Z' || '0'
                    <= s[i] <= '9' || s[i] == '_' || s[i] == '-' || s[i] == '.' || s[i] == '/'
                    || s[i] == '\\' || s[i] == ' '),
            _ => false,
        },
{
    if component_fault(part, s) matches Some(IdFault::InvalidChars(_)) {
        let k = choose|i: int| 0 <= i < s.len() && !id_char(#[trigger] s[i]);
        assert(s[k] != '/' && s[k] != '\\' && s[k] != ' ');
    }
}

/// A qualified identifier has one slash, between a namespace and a name that are accepted; a safe
/// path has two dashes between them.
pub proof fn identifiers_have_two_parts(s: Seq<char>)
    ensures
        s.len() == 0 ==> qualified_fault(s) == Some(IdFault::Empty),
        s.len() > 0 && !s.contains('/') ==> qualified_fault(s) == Some(
            IdFault::MissingNamespace(s),
        ),
        qualified_fault(s) is None ==> exists|a: Seq<char>, b: Seq<char>|
            s == #[trigger] (a + "/"@ + b) && valid_component(a) && valid_component(b),
        !text::occurs_in("--"@, s) ==> safe_path_fault(s) == Some(IdFault::InvalidSafePath(s)),
        safe_path_fault(s) is None ==> exists|a: Seq<char>, b: Seq<char>|
            s == #[trigger] (a + "--"@ + b) && valid_component(a) && valid_component(b),
{
    reveal_strlit("/");
    text::texts_are_split_at_the_first_separator(s, "/"@);
    text::texts_are_split_at_the_first_separator(s, "--"@);
    if text::occurs_in("/"@, s) {
        let at = choose|at: int| #[trigger] text::occurs_at("/"@, s, at);
        assert(s.subrange(at, at + 1)[0] == s[at]);
        assert(s[at] == '/');
    }
    if qualified_fault(s) is None {
        let parts = text::split_once(s, "/"@)->0;
        assert(s == parts.0 + "/"@ + parts.1);
    }
    if safe_path_fault(s) is None {
        let parts = text::split_once(s, "--"@)->0;
        assert(s == parts.0 + "--"@ + parts.1);
    }
}

/// Of two parts that are not accepted the namespace is reported.
pub proof fn the_namespace_is_checked_first(namespace: Seq<char>, name: Seq<char>)
    ensures
        !valid_component(namespace) ==> pair_fault(namespace, name) == component_fault(
            "namespace"@,
            namespace,
        ),
        valid_component(namespace) ==> pair_fault(namespace, name) == component_fault(
            "name"@,
            name,
        ),
        pair_fault(namespace, name) is None <==> valid_component(namespace) && valid_component(
            name,
        ),
{
}

/// An error reports the fault that it is named after, with the text that it is about.
pub proof fn errors_report_their_fault(e: DaemonIdError)
    ensures
        match e {
            DaemonIdError::Empty => e.fault() is Empty,
            DaemonIdError::EmptyComponent { component } => e.fault() == IdFault::EmptyComponent(
                component@,
            ),
            DaemonIdError::PathSeparator { id, sep } => e.fault() == IdFault::PathSeparator(
                id@,
                sep,
            ),
            DaemonIdError::ParentDirRef { id } => e.fault() == IdFault::ParentDirRef(id@),
            DaemonIdError::ReservedSequence { id } => e.fault() == IdFault::ReservedSequence(id@),
            DaemonIdError::LeadingTrailingDash { id } => e.fault()
                == IdFault::LeadingTrailingDash(id@),
            DaemonIdError::ContainsSpace { id } => e.fault() == IdFault::ContainsSpace(id@),
            DaemonIdError::CurrentDir => e.fault() is CurrentDir,
            DaemonIdError::InvalidChars { id } => e.fault() == IdFault::InvalidChars(id@),
            DaemonIdError::MissingNamespace { id } => e.fault() == IdFault::MissingNamespace(id@),
            DaemonIdError::InvalidSafePath { path } => e.fault() == IdFault::InvalidSafePath(path@),
        },
{
}

} // verus!
