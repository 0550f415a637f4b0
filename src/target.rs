use vstd::prelude::*;
use vstd::string::StrSliceExecFns;

verus! {

/// One occurrence of a library whose address is not known yet: the library
/// is named by its position in the artifact set, and its twenty byte
/// placeholder starts at `offset` in the bytecode.
pub struct LinkRef {
    pub library: usize,
    pub offset: usize,
}

/// One compiled program or library.
pub struct Artifact {
    pub source: String,
    pub name: String,
    pub bytecode: Vec<u8>,
    pub links: Vec<LinkRef>,
}

/// Which artifact to serve.
pub enum TargetSpec {
    /// The unique non-interface program defined in this source file.
    File(String),
    /// The program with exactly this source path and name.
    Named(String, String),
}

/// Why no program could be selected or linked.
#[derive(Debug, PartialEq, Eq, Structural, Clone, Copy)]
pub enum BuildError {
    /// Two or more artifacts match the target.
    AmbiguousTarget,
    /// No artifact matches the target.
    TargetNotFound,
    /// An explicit target lacks the `:` between path and name.
    MalformedTarget,
    /// The matched artifact has no bytecode.
    MissingBytecode,
    /// A link reference is out of range or overlaps another.
    LinkError,
}

/// Text of `AmbiguousTarget`.
pub const AMBIGUOUS_TARGET: &'static str =
    "Multiple contracts in the target path. Please specify the contract name with `--tc ContractName`";

/// Text of `TargetNotFound`.
pub const TARGET_NOT_FOUND: &'static str = "Could not find target contract";

/// Text of `MalformedTarget`.
pub const MALFORMED_TARGET: &'static str = "The target specifier is malformed.";

/// Text of `MissingBytecode`.
pub const MISSING_BYTECODE: &'static str = "No bytecode";

/// Text of `LinkError`.
pub const LINK_ERROR: &'static str = "A library reference is out of range or overlaps another";

/// The text that describes each error.
pub open spec fn message_of(e: BuildError) -> Seq<char> {
    match e {
        BuildError::AmbiguousTarget => AMBIGUOUS_TARGET@,
        BuildError::TargetNotFound => TARGET_NOT_FOUND@,
        BuildError::MalformedTarget => MALFORMED_TARGET@,
        BuildError::MissingBytecode => MISSING_BYTECODE@,
        BuildError::LinkError => LINK_ERROR@,
    }
}

impl BuildError {
    /// What went wrong, in words; an ambiguous target says how to name it.
    pub fn message(&self) -> (r: String)
        ensures
            r@ == message_of(*self),
    {
        match self {
            BuildError::AmbiguousTarget => AMBIGUOUS_TARGET.to_owned(),
            BuildError::TargetNotFound => TARGET_NOT_FOUND.to_owned(),
            BuildError::MalformedTarget => MALFORMED_TARGET.to_owned(),
            BuildError::MissingBytecode => MISSING_BYTECODE.to_owned(),
            BuildError::LinkError => LINK_ERROR.to_owned(),
        }
    }
}

/// Whether artifact `a` is one that `t` describes.
pub open spec fn selects(a: Artifact, t: TargetSpec) -> bool {
    match t {
        TargetSpec::File(f) => a.source@ == f@ && a.bytecode@.len() > 0,
        TargetSpec::Named(p, n) => a.source@ == p@ && a.name@ == n@,
    }
}

/// Exactly one artifact, the one at `i`, is selected by `t`.
pub open spec fn selects_only(arts: Seq<Artifact>, t: TargetSpec, i: int) -> bool {
    &&& 0 <= i < arts.len()
    &&& selects(arts[i], t)
    &&& forall|j: int| 0 <= j < arts.len() && j != i ==> !selects(#[trigger] arts[j], t)
}

/// Two distinct artifacts are selected by `t`.
pub open spec fn selects_several(arts: Seq<Artifact>, t: TargetSpec) -> bool {
    exists|i: int, j: int|
        0 <= i < arts.len() && 0 <= j < arts.len() && i != j && selects(#[trigger] arts[i], t)
            && selects(#[trigger] arts[j], t)
}

/// No artifact is selected by `t`.
pub open spec fn selects_none(arts: Seq<Artifact>, t: TargetSpec) -> bool {
    forall|j: int| 0 <= j < arts.len() ==> !selects(#[trigger] arts[j], t)
}

fn selects_exec(a: &Artifact, t: &TargetSpec) -> (r: bool)
    ensures
        r == selects(*a, *t),
{
    match t {
        TargetSpec::File(f) => a.source == *f && a.bytecode.len() > 0,
        TargetSpec::Named(p, n) => a.source == *p && a.name == *n,
    }
}

/// The text holds a colon at `k` and none after it.
pub open spec fn last_colon_at(s: Seq<char>, k: int) -> bool {
    &&& 0 <= k < s.len()
    &&& s[k] == ':'
    &&& forall|j: int| k < j < s.len() ==> s[j] != ':'
}

impl TargetSpec {
    /// Reads an explicit target written `path:name`, split at the last colon.
    pub fn parse_named(s: &str) -> (r: Result<TargetSpec, BuildError>)
        ensures
            r is Err <==> forall|j: int| 0 <= j < s@.len() ==> s@[j] != ':',
            r is Err ==> r == Err::<TargetSpec, BuildError>(BuildError::MalformedTarget),
            r matches Ok(t) ==> t is Named && exists|k: int|
                #![auto]
                last_colon_at(s@, k) && t->Named_0@ == s@.subrange(0, k) && t->Named_1@
                    == s@.subrange(k + 1, s@.len() as int),
    {
        let len = s.unicode_len();
        let mut i: usize = len;
        while i > 0
            invariant
                i <= len,
                len == s@.len(),
                forall|j: int| i <= j < len ==> s@[j] != ':',
            decreases i,
        {
            if s.get_char(i - 1) == ':' {
                let k = i - 1;
                let path = s.substring_char(0, k).to_owned();
                let name = s.substring_char(k + 1, len).to_owned();
                let t = TargetSpec::Named(path, name);
                assert(last_colon_at(s@, k as int));
                return Ok(t);
            }
            i = i - 1;
        }
        Err(BuildError::MalformedTarget)
    }
}

/// Selects the one artifact that `t` describes. Zero matches is
/// `TargetNotFound`, two or more is `AmbiguousTarget`, and a match without
/// bytecode is `MissingBytecode`.
pub fn resolve_target(arts: &Vec<Artifact>, t: &TargetSpec) -> (r: Result<usize, BuildError>)
    ensures
        r matches Ok(i) ==> selects_only(arts@, *t, i as int) && arts@[i as int].bytecode@.len() > 0,
        r == Err::<usize, BuildError>(BuildError::TargetNotFound) <==> selects_none(arts@, *t),
        r == Err::<usize, BuildError>(BuildError::AmbiguousTarget) <==> selects_several(arts@, *t),
        r == Err::<usize, BuildError>(BuildError::MissingBytecode) <==> exists|i: int|
            selects_only(arts@, *t, i) && arts@[i].bytecode@.len() == 0,
        r is Err ==> r->Err_0 == BuildError::TargetNotFound || r->Err_0
            == BuildError::AmbiguousTarget || r->Err_0 == BuildError::MissingBytecode,
{
    let mut found: Option<usize> = None;
    let mut i: usize = 0;
    while i < arts.len()
        invariant
            i <= arts.len(),
            found is None ==> forall|j: int| 0 <= j < i ==> !selects(#[trigger] arts@[j], *t),
            found matches Some(k) ==> k < i && selects(arts@[k as int], *t) && forall|j: int|
                0 <= j < i && j != k ==> !selects(#[trigger] arts@[j], *t),
        decreases arts.len() - i,
    {
        if selects_exec(&arts[i], t) {
            if let Some(k) = found {
                assert(selects(arts@[k as int], *t) && selects(arts@[i as int], *t));
                return Err(BuildError::AmbiguousTarget);
            }
            found = Some(i);
        }
        i = i + 1;
    }
    match found {
        None => Err(BuildError::TargetNotFound),
        Some(k) => {
            assert(selects_only(arts@, *t, k as int));
            assert(!selects_several(arts@, *t));
            if arts[k].bytecode.len() == 0 {
                Err(BuildError::MissingBytecode)
            } else {
                proof {
                    assert forall|i2: int| selects_only(arts@, *t, i2) implies i2 == k by {}
                }
                Ok(k)
            }
        },
    }
}

} // verus!
