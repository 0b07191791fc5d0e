//! The document as read, and the generic tree it is turned into.
use crate::error::ConfigError;
use crate::number::Number;
use crate::scanner::{scan, scan_of};
use crate::values::Structured;
use vstd::prelude::*;

verus! {

/// A parsed document value. A float is held by its IEEE-754 bits, a date and
/// time by its canonical text.
#[derive(Debug, PartialEq)]
pub enum Doc {
    Table(Vec<(String, Doc)>),
    Array(Vec<Doc>),
    Str(String),
    Integer(i64),
    Float(u64),
    Boolean(bool),
    DateTime(String),
}

/// A value of the generic tree. A float is held by its IEEE-754 bits.
#[derive(Debug, PartialEq)]
pub enum Tree {
    Mapping(Vec<(String, Tree)>),
    Sequence(Vec<Tree>),
    Str(String),
    Integer(i64),
    Float(u64),
    Boolean(bool),
    Structured(Structured<Number>),
}

/// The first problem of `d` in document order, if any: an element of an array
/// that is not a table, or a string that is a malformed literal.
pub open spec fn problem(d: Doc) -> Option<ConfigError>
    decreases d, 0nat,
{
    match d {
        Doc::Table(es) => entries_problem(es@),
        Doc::Array(xs) => elements_problem(xs@),
        Doc::Str(s) => match scan_of(s@) {
            Err(e) => Some(e),
            Ok(_) => None,
        },
        _ => None,
    }
}

pub open spec fn entries_problem(es: Seq<(String, Doc)>) -> Option<ConfigError>
    decreases es, 0nat,
{
    if es.len() == 0 {
        None
    } else {
        match entries_problem(es.subrange(0, es.len() - 1)) {
            Some(e) => Some(e),
            None => problem(es[es.len() - 1].1),
        }
    }
}

pub open spec fn elements_problem(xs: Seq<Doc>) -> Option<ConfigError>
    decreases xs, 0nat,
{
    if xs.len() == 0 {
        None
    } else {
        match elements_problem(xs.subrange(0, xs.len() - 1)) {
            Some(e) => Some(e),
            None => {
                let x = xs[xs.len() - 1];
                if x is Table {
                    problem(x)
                } else {
                    Some(ConfigError::Schema)
                }
            },
        }
    }
}

/// What a string of the document becomes in the tree.
pub open spec fn leaf_built(s: Seq<char>, t: Tree) -> bool {
    match scan_of(s) {
        Ok(None) => t matches Tree::Str(x) && x@ == s,
        Ok(Some(v)) => t matches Tree::Structured(x) && x@ == v,
        Err(_) => false,
    }
}

/// `t` is the tree of `d`: tables become mappings with the same keys in the
/// same order, arrays become sequences, scalars are copied, a date and time
/// becomes its text, and a string becomes what its scan gives.
pub open spec fn built(d: Doc, t: Tree) -> bool
    decreases d, 0nat,
{
    match d {
        Doc::Table(es) => t matches Tree::Mapping(ms) && entries_built(es@, ms@),
        Doc::Array(xs) => t matches Tree::Sequence(ys) && elements_built(xs@, ys@),
        Doc::Str(s) => leaf_built(s@, t),
        Doc::Integer(n) => t == Tree::Integer(n),
        Doc::Float(b) => t == Tree::Float(b),
        Doc::Boolean(b) => t == Tree::Boolean(b),
        Doc::DateTime(s) => t matches Tree::Str(x) && x@ == s@,
    }
}

/// Entry by entry, the same keys, each value built from the document's.
pub open spec fn entries_built(es: Seq<(String, Doc)>, ms: Seq<(String, Tree)>) -> bool
    decreases es, 0nat,
{
    if es.len() == 0 {
        ms.len() == 0
    } else {
        let n = es.len() - 1;
        ms.len() == es.len() && entries_built(es.subrange(0, n), ms.subrange(0, n)) && ms[n].0@
            == es[n].0@ && built(es[n].1, ms[n].1)
    }
}

/// Element by element, each built from the document's.
pub open spec fn elements_built(xs: Seq<Doc>, ys: Seq<Tree>) -> bool
    decreases xs, 0nat,
{
    if xs.len() == 0 {
        ys.len() == 0
    } else {
        let n = xs.len() - 1;
        ys.len() == xs.len() && elements_built(xs.subrange(0, n), ys.subrange(0, n)) && built(
            xs[n],
            ys[n],
        )
    }
}

/// The outcome of building the tree of `d`: the tree, where `d` has no
/// problem; otherwise the first problem.
pub open spec fn build_outcome(d: Doc, r: Result<Tree, ConfigError>) -> bool {
    match r {
        Ok(t) => problem(d) is None && built(d, t),
        Err(e) => problem(d) == Some(e),
    }
}

proof fn lemma_entries_prefix(es: Seq<(String, Doc)>, j: int)
    requires
        0 <= j <= es.len(),
        entries_problem(es.subrange(0, j)) is Some,
    ensures
        entries_problem(es) == entries_problem(es.subrange(0, j)),
    decreases es.len(),
{
    if j == es.len() {
        assert(es.subrange(0, j) =~= es);
    } else {
        let p = es.subrange(0, es.len() - 1);
        assert(p.subrange(0, j) =~= es.subrange(0, j));
        lemma_entries_prefix(p, j);
    }
}

proof fn lemma_elements_prefix(xs: Seq<Doc>, j: int)
    requires
        0 <= j <= xs.len(),
        elements_problem(xs.subrange(0, j)) is Some,
    ensures
        elements_problem(xs) == elements_problem(xs.subrange(0, j)),
    decreases xs.len(),
{
    if j == xs.len() {
        assert(xs.subrange(0, j) =~= xs);
    } else {
        let p = xs.subrange(0, xs.len() - 1);
        assert(p.subrange(0, j) =~= xs.subrange(0, j));
        lemma_elements_prefix(p, j);
    }
}

/// Builds the tree of a document value.
pub fn build_value(d: &Doc) -> (r: Result<Tree, ConfigError>)
    ensures
        build_outcome(*d, r),
    decreases d,
{
    match d {
        Doc::Table(es) => match populate_toml_dictionary(es) {
            Ok(m) => Ok(Tree::Mapping(m)),
            Err(e) => Err(e),
        },
        Doc::Array(xs) => {
            let mut ys: Vec<Tree> = Vec::new();
            let mut k: usize = 0;
            assert(xs@.subrange(0, 0) =~= seq![]);
            while k < xs.len()
                invariant
                    *d == Doc::Array(*xs),
                    k <= xs@.len(),
                    elements_problem(xs@.subrange(0, k as int)) is None,
                    elements_built(xs@.subrange(0, k as int), ys@),
                decreases xs.len() - k,
            {
                let x = &xs[k];
                let ghost next = xs@.subrange(0, k + 1);
                assert(next.subrange(0, k as int) =~= xs@.subrange(0, k as int));
                assert(next[k as int] == *x);
                if !matches!(x, Doc::Table(_)) {
                    proof {
                        lemma_elements_prefix(xs@, k + 1);
                    }
                    return Err(ConfigError::Schema);
                }
                proof {
                    assert(decreases_to!(*d => (*d)->Array_0));
                    assert(decreases_to!(*xs => xs@));
                    assert(decreases_to!(xs@ => xs@[k as int]));
                }
                let y = match build_value(x) {
                    Ok(y) => y,
                    Err(e) => {
                        proof {
                            lemma_elements_prefix(xs@, k + 1);
                        }
                        return Err(e);
                    },
                };
                let ghost old_ys = ys@;
                ys.push(y);
                assert(ys@.subrange(0, k as int) =~= old_ys);
                k = k + 1;
            }
            assert(xs@.subrange(0, k as int) =~= xs@);
            Ok(Tree::Sequence(ys))
        },
        Doc::Str(s) => match scan(s.as_str()) {
            Ok(None) => Ok(Tree::Str(s.clone())),
            Ok(Some(v)) => Ok(Tree::Structured(v)),
            Err(e) => Err(e),
        },
        Doc::Integer(n) => Ok(Tree::Integer(*n)),
        Doc::Float(b) => Ok(Tree::Float(*b)),
        Doc::Boolean(b) => Ok(Tree::Boolean(*b)),
        Doc::DateTime(s) => Ok(Tree::Str(s.clone())),
    }
}

/// Builds the mapping of a table: each entry under its key, in order.
pub fn populate_toml_dictionary(table: &Vec<(String, Doc)>) -> (r: Result<
    Vec<(String, Tree)>,
    ConfigError,
>)
    ensures
        build_outcome(
            Doc::Table(*table),
            match r {
                Ok(m) => Ok::<Tree, ConfigError>(Tree::Mapping(m)),
                Err(e) => Err(e),
            },
        ),
    decreases table,
{
    let mut ms: Vec<(String, Tree)> = Vec::new();
    let mut k: usize = 0;
    assert(table@.subrange(0, 0) =~= seq![]);
    while k < table.len()
        invariant
            k <= table@.len(),
            entries_problem(table@.subrange(0, k as int)) is None,
            entries_built(table@.subrange(0, k as int), ms@),
        decreases table.len() - k,
    {
        let entry = &table[k];
        let ghost next = table@.subrange(0, k + 1);
        assert(next.subrange(0, k as int) =~= table@.subrange(0, k as int));
        assert(next[k as int] == *entry);
        proof {
            assert(decreases_to!(*table => table@));
            assert(decreases_to!(table@ => table@[k as int]));
            assert(decreases_to!(table@[k as int] => table@[k as int].1));
        }
        let y = match build_value(&entry.1) {
            Ok(y) => y,
            Err(e) => {
                proof {
                    lemma_entries_prefix(table@, k + 1);
                }
                return Err(e);
            },
        };
        let ghost old_ms = ms@;
        ms.push((entry.0.clone(), y));
        assert(ms@.subrange(0, k as int) =~= old_ms);
        k = k + 1;
    }
    assert(table@.subrange(0, k as int) =~= table@);
    Ok(ms)
}

/// Builds the tree of a document, whose root must be a table.
pub fn build_tree(doc: &Doc) -> (r: Result<Tree, ConfigError>)
    ensures
        !(doc is Table) ==> r == Err::<Tree, ConfigError>(ConfigError::Schema),
        doc is Table ==> build_outcome(*doc, r),
{
    if !matches!(doc, Doc::Table(_)) {
        return Err(ConfigError::Schema);
    }
    build_value(doc)
}

} // verus!
