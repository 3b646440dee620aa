//! Include/exclude glob filtering. Exclusion always takes precedence;
//! include patterns, when present, must match for a path to pass.
use vstd::prelude::*;
use vstd::string::StringExecFns;

verus! {

/// Whether a glob pattern text compiles; `glob::Pattern::new` decides.
pub uninterp spec fn glob_ok(pattern: Seq<char>) -> bool;

/// Whether a glob pattern matches a path; `glob::Pattern::matches` decides.
pub uninterp spec fn glob_match(pattern: Seq<char>, path: Seq<char>) -> bool;

/// Relies on `glob::Pattern::new`: whether a pattern compiles depends on
/// its text alone; the error carries the reported syntax problem.
#[verifier::external_body]
fn glob_compiles(pattern: &str) -> (r: Result<(), String>)
    ensures
        r is Ok <==> glob_ok(pattern@),
{
    match glob::Pattern::new(pattern) {
        Ok(_) => Ok(()),
        Err(e) => Err(format!("{}", e)),
    }
}

/// Relies on `glob::Pattern::matches` (after `glob::Pattern::new` on a
/// pattern known to compile): the outcome depends on the pattern and path
/// text alone.
#[verifier::external_body]
fn glob_matches(pattern: &str, path: &str) -> (r: bool)
    requires
        glob_ok(pattern@),
    ensures
        r == glob_match(pattern@, path@),
{
    match glob::Pattern::new(pattern) {
        Ok(p) => p.matches(path),
        Err(_) => false,
    }
}

/// The filter rule: any matching exclude pattern refuses the path;
/// otherwise, when include patterns exist, some include must match;
/// otherwise the path passes.
pub open spec fn filter_allows(
    includes: Seq<Seq<char>>,
    excludes: Seq<Seq<char>>,
    path: Seq<char>,
) -> bool {
    if exists|i: int| 0 <= i < excludes.len() && glob_match(#[trigger] excludes[i], path) {
        false
    } else if includes.len() > 0 {
        exists|i: int| 0 <= i < includes.len() && glob_match(#[trigger] includes[i], path)
    } else {
        true
    }
}

/// An ordered set of include and exclude glob patterns, each known to
/// compile.
pub struct FileFilter {
    include_patterns: Vec<String>,
    exclude_patterns: Vec<String>,
}

impl FileFilter {
    /// The include pattern texts, in order.
    pub closed spec fn includes(&self) -> Seq<Seq<char>> {
        self.include_patterns.deep_view()
    }

    /// The exclude pattern texts, in order.
    pub closed spec fn excludes(&self) -> Seq<Seq<char>> {
        self.exclude_patterns.deep_view()
    }

    /// Every held pattern compiles.
    pub closed spec fn wf(&self) -> bool {
        &&& forall|i: int|
            0 <= i < self.include_patterns@.len() ==> glob_ok(
                #[trigger] self.include_patterns@[i]@,
            )
        &&& forall|i: int|
            0 <= i < self.exclude_patterns@.len() ==> glob_ok(
                #[trigger] self.exclude_patterns@[i]@,
            )
    }

    /// Builds a filter, refusing the first pattern that does not compile;
    /// includes are checked before excludes, and the error says which
    /// kind of pattern was at fault.
    pub fn new(incl: Vec<String>, excl: Vec<String>) -> (r: Result<FileFilter, String>)
        ensures
            r is Ok <==> (forall|i: int|
                0 <= i < incl.deep_view().len() ==> glob_ok(#[trigger] incl.deep_view()[i]))
                && (forall|i: int|
                0 <= i < excl.deep_view().len() ==> glob_ok(#[trigger] excl.deep_view()[i])),
            r matches Ok(f) ==> f.wf() && f.includes() == incl.deep_view() && f.excludes()
                == excl.deep_view(),
            !(forall|i: int|
                0 <= i < incl.deep_view().len() ==> glob_ok(#[trigger] incl.deep_view()[i])) ==> (
            r matches Err(e) && "Invalid include pattern: "@.is_prefix_of(e@)),
            ((forall|i: int|
                0 <= i < incl.deep_view().len() ==> glob_ok(#[trigger] incl.deep_view()[i]))
                && !(forall|i: int|
                0 <= i < excl.deep_view().len() ==> glob_ok(#[trigger] excl.deep_view()[i])))
                ==> (r matches Err(e) && "Invalid exclude pattern: "@.is_prefix_of(e@)),
    {
        let mut i: usize = 0;
        while i < incl.len()
            invariant
                i <= incl@.len(),
                forall|j: int| 0 <= j < i ==> glob_ok(#[trigger] incl@[j]@),
            decreases incl@.len() - i,
        {
            match glob_compiles(incl[i].as_str()) {
                Ok(()) => {},
                Err(e) => {
                    let msg = String::from_str("Invalid include pattern: ").concat(e.as_str());
                    proof {
                        assert(!glob_ok(incl.deep_view()[i as int]));
                        assert(msg@.subrange(0, "Invalid include pattern: "@.len() as int)
                            =~= "Invalid include pattern: "@);
                    }
                    return Err(msg);
                },
            }
            i = i + 1;
        }
        let mut i: usize = 0;
        while i < excl.len()
            invariant
                i <= excl@.len(),
                forall|j: int| 0 <= j < i ==> glob_ok(#[trigger] excl@[j]@),
                forall|j: int| 0 <= j < incl@.len() ==> glob_ok(#[trigger] incl@[j]@),
            decreases excl@.len() - i,
        {
            match glob_compiles(excl[i].as_str()) {
                Ok(()) => {},
                Err(e) => {
                    let msg = String::from_str("Invalid exclude pattern: ").concat(e.as_str());
                    proof {
                        assert(!glob_ok(excl.deep_view()[i as int]));
                        assert(msg@.subrange(0, "Invalid exclude pattern: "@.len() as int)
                            =~= "Invalid exclude pattern: "@);
                    }
                    return Err(msg);
                },
            }
            i = i + 1;
        }
        Ok(FileFilter { include_patterns: incl, exclude_patterns: excl })
    }

    /// Whether the path passes the filter rule.
    pub fn matches(&self, path: &str) -> (r: bool)
        requires
            self.wf(),
        ensures
            r == filter_allows(self.includes(), self.excludes(), path@),
    {
        let mut i: usize = 0;
        while i < self.exclude_patterns.len()
            invariant
                self.wf(),
                i <= self.exclude_patterns@.len(),
                forall|j: int|
                    0 <= j < i ==> !glob_match(#[trigger] self.exclude_patterns@[j]@, path@),
            decreases self.exclude_patterns@.len() - i,
        {
            if glob_matches(self.exclude_patterns[i].as_str(), path) {
                proof {
                    assert(glob_match(self.excludes()[i as int], path@));
                }
                return false;
            }
            i = i + 1;
        }
        proof {
            assert(forall|j: int|
                0 <= j < self.excludes().len() ==> !glob_match(
                    #[trigger] self.excludes()[j],
                    path@,
                ));
        }
        if self.include_patterns.len() > 0 {
            let mut i: usize = 0;
            while i < self.include_patterns.len()
                invariant
                    self.wf(),
                    i <= self.include_patterns@.len(),
                    forall|j: int|
                        0 <= j < i ==> !glob_match(#[trigger] self.include_patterns@[j]@, path@),
                    forall|j: int|
                        0 <= j < self.excludes().len() ==> !glob_match(
                            #[trigger] self.excludes()[j],
                            path@,
                        ),
                decreases self.include_patterns@.len() - i,
            {
                if glob_matches(self.include_patterns[i].as_str(), path) {
                    proof {
                        assert(glob_match(self.includes()[i as int], path@));
                        assert(exists|k: int|
                            0 <= k < self.includes().len() && glob_match(
                                #[trigger] self.includes()[k],
                                path@,
                            ));
                    }
                    return true;
                }
                i = i + 1;
            }
            proof {
                assert(forall|j: int|
                    0 <= j < self.includes().len() ==> !glob_match(
                        #[trigger] self.includes()[j],
                        path@,
                    ));
            }
            return false;
        }
        true
    }

    /// Whether any pattern is set at all.
    pub fn has_filters(&self) -> (r: bool)
        ensures
            r == (self.includes().len() > 0 || self.excludes().len() > 0),
    {
        self.include_patterns.len() > 0 || self.exclude_patterns.len() > 0
    }
}

/// Exclusion wins for every path: an exclude match refuses it whatever the
/// includes say; an unexcluded path passes when there are no includes, and
/// passes under includes exactly when one of them matches.
pub proof fn lemma_filter_precedence(
    includes: Seq<Seq<char>>,
    excludes: Seq<Seq<char>>,
    path: Seq<char>,
)
    ensures
        (exists|i: int| 0 <= i < excludes.len() && glob_match(#[trigger] excludes[i], path))
            ==> !filter_allows(includes, excludes, path),
        ((forall|i: int| 0 <= i < excludes.len() ==> !glob_match(#[trigger] excludes[i], path))
            && includes.len() == 0) ==> filter_allows(includes, excludes, path),
        ((forall|i: int| 0 <= i < excludes.len() ==> !glob_match(#[trigger] excludes[i], path))
            && includes.len() > 0) ==> (filter_allows(includes, excludes, path) <==> exists|i: int|
            0 <= i < includes.len() && glob_match(#[trigger] includes[i], path)),
{
}

} // verus!
