//! The runtime graph: shared ownership of the root container, and
//! resolution of textual paths to nodes.

use vstd::prelude::*;

use std::rc::Rc;

use crate::error::InkError;
use crate::json_parser::InkJSon;
use crate::json_spec::parse_doc_s;
use crate::path::{FragmentM, Path};
use crate::runtime::{cont_m, obj_m, search_m, str_eq, Container, ContainerM, ObjM,
    RuntimeObject};

verus! {

/// The fragments of a path with every parent fragment `^` cancelled
/// against the fragment before it; `None` when a `^` would climb above
/// the start.
pub open spec fn normalize_frags(frags: Seq<FragmentM>, acc: Seq<FragmentM>) -> Option<
    Seq<FragmentM>,
>
    decreases frags.len(),
{
    if frags.len() == 0 {
        Some(acc)
    } else if frags[0] == FragmentM::Name(seq!['^']) {
        if acc.len() == 0 {
            None
        } else {
            normalize_frags(frags.subrange(1, frags.len() as int), acc.drop_last())
        }
    } else {
        normalize_frags(frags.subrange(1, frags.len() as int), acc.push(frags[0]))
    }
}

/// Walking a container by fragments: an index picks the positional
/// child, a name picks the first child a container shows that name for;
/// navigation through a non-container fails.
pub open spec fn resolve_m(c: ContainerM, frags: Seq<FragmentM>) -> Option<ObjM>
    decreases frags.len(),
{
    if frags.len() == 0 {
        None
    } else {
        let child = match frags[0] {
            FragmentM::Index(n) => if 0 <= n && n < c.content.len() {
                Some(c.content[n])
            } else {
                None
            },
            FragmentM::Name(nm) => search_m(c.content, nm),
        };
        match child {
            None => None,
            Some(o) => if frags.len() == 1 {
                Some(o)
            } else {
                match o {
                    ObjM::Container(c2) => resolve_m(c2, frags.subrange(1, frags.len() as int)),
                    _ => None,
                }
            },
        }
    }
}

/// Holds the loaded graph: a reference-counted pointer to the root
/// container, shared with every cursor.
#[derive(Debug)]
pub struct RuntimeGraph {
    root_container: Rc<Container>,
}

impl RuntimeGraph {
    /// The model of the root container.
    pub closed spec fn root_m(&self) -> ContainerM {
        cont_m(*self.root_container)
    }

    pub fn new(container: Rc<Container>) -> (r: RuntimeGraph)
        ensures
            r.root_m() == cont_m(*container),
    {
        RuntimeGraph { root_container: container }
    }

    pub fn root_container(&self) -> (r: &Rc<Container>)
        ensures
            cont_m(**r) == self.root_m(),
    {
        &self.root_container
    }

    /// Resolves a path against the root: parent fragments are cancelled
    /// first, then the remaining fragments walk the tree. A path that
    /// cancels to nothing names the root itself, which is no child, so
    /// it resolves to `None`. Relative paths are resolved by the caller
    /// composing them with a base before calling.
    pub fn resolve_path(&self, path: &Path) -> (r: Option<&RuntimeObject>)
        ensures
            match r {
                Some(o) => ({
                    let n = normalize_frags(path@.fragments, Seq::empty());
                    n matches Some(f) && resolve_m(self.root_m(), f) == Some(
                        obj_m(*o),
                    )
                }),
                None => ({
                    let n = normalize_frags(path@.fragments, Seq::empty());
                    match n {
                        Some(f) => resolve_m(self.root_m(), f) is None,
                        None => true,
                    }
                }),
            },
    {
        let ghost frags = path@.fragments;
        // Cancel parent fragments against a stack of kept fragments.
        let mut kept: Vec<&crate::path::Fragment> = Vec::new();
        let n = path.len();
        let mut i: usize = 0;
        proof {
            assert(frags.subrange(0, frags.len() as int) =~= frags);
            assert(Seq::new(kept@.len(), |q: int| kept@[q]@) =~= Seq::<FragmentM>::empty());
        }
        while i < n
            invariant
                i <= n,
                n == frags.len(),
                frags == path@.fragments,
                normalize_frags(frags, Seq::empty()) == normalize_frags(
                    frags.subrange(i as int, frags.len() as int),
                    Seq::new(kept@.len(), |q: int| kept@[q]@),
                ),
            decreases n - i,
        {
            let ghost rest = frags.subrange(i as int, frags.len() as int);
            let ghost acc = Seq::new(kept@.len(), |q: int| kept@[q]@);
            let frag = match path.get(i) {
                Some(f) => f,
                None => {
                    proof {
                        assert(false);
                    }
                    return None;
                },
            };
            let is_parent = match frag {
                crate::path::Fragment::Name(s) => str_eq(s.as_str(), "^"),
                _ => false,
            };
            proof {
                reveal_strlit("^");
                assert("^"@ =~= seq!['^']);
                assert(rest[0] == frags[i as int]);
                assert(is_parent == (rest[0] == FragmentM::Name(seq!['^'])));
            }
            if is_parent {
                if kept.len() == 0 {
                    proof {
                        assert(normalize_frags(rest, acc) is None);
                    }
                    return None;
                }
                let _ = kept.pop();
                proof {
                    assert(Seq::new(kept@.len(), |q: int| kept@[q]@) =~= acc.drop_last());
                    assert(rest.subrange(1, rest.len() as int) =~= frags.subrange(
                        i + 1,
                        frags.len() as int,
                    ));
                }
            } else {
                kept.push(frag);
                proof {
                    assert(Seq::new(kept@.len(), |q: int| kept@[q]@) =~= acc.push(rest[0]));
                    assert(rest.subrange(1, rest.len() as int) =~= frags.subrange(
                        i + 1,
                        frags.len() as int,
                    ));
                }
            }
            i = i + 1;
        }
        proof {
            assert(frags.subrange(n as int, frags.len() as int).len() == 0);
        }
        let ghost norm = Seq::new(kept@.len(), |q: int| kept@[q]@);
        proof {
            assert(normalize_frags(frags, Seq::empty()) == Some(norm));
        }
        // Walk the kept fragments from the root.
        if kept.len() == 0 {
            return None;
        }
        let mut current: &Rc<Container> = &self.root_container;
        let mut k: usize = 0;
        proof {
            assert(norm.subrange(0, norm.len() as int) =~= norm);
        }
        while k < kept.len()
            invariant
                k < kept@.len(),
                norm == Seq::new(kept@.len(), |q: int| kept@[q]@),
                norm.len() == kept@.len(),
                normalize_frags(path@.fragments, Seq::empty()) == Some(norm),
                resolve_m(self.root_m(), norm) == resolve_m(
                    cont_m(**current),
                    norm.subrange(k as int, norm.len() as int),
                ),
            decreases kept@.len() - k,
        {
            let ghost rest = norm.subrange(k as int, norm.len() as int);
            let frag = kept[k];
            let child = match frag {
                crate::path::Fragment::Index(idx) => current.get(*idx),
                crate::path::Fragment::Name(nm) => current.search_by_name(nm.as_str()),
            };
            proof {
                assert(rest[0] == norm[k as int] && norm[k as int] == kept@[k as int]@);
            }
            let child = match child {
                Some(o) => o,
                None => {
                    proof {
                        assert(resolve_m(cont_m(**current), rest) is None);
                    }
                    return None;
                },
            };
            if k + 1 == kept.len() {
                proof {
                    assert(rest.len() == 1);
                    assert(resolve_m(cont_m(**current), rest) == Some(obj_m(*child)));
                }
                return Some(child);
            }
            match child {
                RuntimeObject::Container(rc) => {
                    proof {
                        assert(rest.subrange(1, rest.len() as int) =~= norm.subrange(
                            k + 1,
                            norm.len() as int,
                        ));
                        assert(resolve_m(cont_m(**current), rest) == resolve_m(
                            cont_m(**rc),
                            norm.subrange(k + 1, norm.len() as int),
                        ));
                    }
                    current = rc;
                },
                _ => {
                    proof {
                        assert(resolve_m(cont_m(**current), rest) is None);
                    }
                    return None;
                },
            }
            k = k + 1;
        }
        proof {
            assert(false);
        }
        None
    }
}

} // verus!

verus! {

/// The newest story-format version this engine understands.
pub const INK_VERSION: u32 = 17;

/// The oldest story-format version this engine still loads.
pub const INK_VERSION_MINIMUM_COMPATIBLE: u32 = 16;

impl RuntimeGraph {
    /// Loads a story document: parses it, rejects versions outside
    /// `[min_compatible, current]`, and requires the root to be a
    /// container.
    pub fn from_str(text: &str, min_compatible: u32, current: u32) -> (r: Result<
        RuntimeGraph,
        InkError,
    >)
        ensures
            match r {
                Ok(g) => parse_doc_s(text@) matches Some(doc) && min_compatible
                    <= doc.ink_version && doc.ink_version <= current && doc.root is Container
                    && g.root_m() == doc.root->Container_0,
                Err(e) => match parse_doc_s(text@) {
                    None => e is Parse,
                    Some(doc) => (!(min_compatible <= doc.ink_version && doc.ink_version
                        <= current) && e is Version) || (min_compatible <= doc.ink_version
                        && doc.ink_version <= current && !(doc.root is Container) && e is Parse),
                },
            },
    {
        let doc = match InkJSon::from_str(text) {
            Ok(d) => d,
            Err(e) => {
                return Err(e);
            },
        };
        let ver = doc.ink_version();
        if ver > current {
            return Err(
                InkError::Version(
                    String::from_str(
                        "the story was built by a newer version of the compiler than this engine understands",
                    ),
                ),
            );
        }
        if ver < min_compatible {
            return Err(
                InkError::Version(
                    String::from_str(
                        "the story was built by a version of the compiler too old for this engine",
                    ),
                ),
            );
        }
        match doc.into_root() {
            RuntimeObject::Container(rc) => Ok(RuntimeGraph::new(rc)),
            _ => Err(InkError::Parse(String::from_str("the root of the story is not a container"))),
        }
    }
}

} // verus!
