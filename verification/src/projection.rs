//! Field-projection analysis: from the tree of fields requested for one
//! nested sub-query to the ordered set of backing-store columns to fetch.
//!
//! The projected set always begins with the collection's mandatory
//! identifying and foreign-key columns, follows with the allow-listed
//! columns the caller asked for in first-seen order, and never holds a
//! duplicate.

use vstd::prelude::*;

use crate::columns::Collection;
use crate::columns::allowed_seq;
use crate::columns::is_allowed;
use crate::columns::resolve_column;
use crate::columns::snake_of;
use crate::columns::str_eq;

verus! {

/// The identifying and foreign-key columns that every fetch for collection
/// `c` must carry, whether or not the caller asked for them.
pub open spec fn mandatory_seq(c: Collection) -> Seq<Seq<char>> {
    match c {
        Collection::Products => seq!["id"@],
        Collection::Variants => seq!["id"@, "sku"@, "product_id"@],
        Collection::Media => seq!["id"@, "product_id"@],
    }
}

/// The projected column set: mandatory columns first, then each requested
/// field's allow-listed column, deduplicated, in first-seen order.
pub open spec fn spec_project(c: Collection, fields: Seq<Seq<char>>) -> Seq<Seq<char>>
    decreases fields.len(),
{
    if fields.len() == 0 {
        mandatory_seq(c)
    } else {
        let prev = spec_project(c, fields.drop_last());
        let col = snake_of(fields.last());
        if is_allowed(c, col) && !prev.contains(col) {
            prev.push(col)
        } else {
            prev
        }
    }
}

/// Whether `v` holds a string whose characters equal `s`'s.
pub fn contains_string(v: &Vec<String>, s: &str) -> (r: bool)
    ensures
        r == v.deep_view().contains(s@),
{
    let n = v.len();
    let mut i: usize = 0;
    while i < n
        invariant
            i <= n,
            n == v.len(),
            forall|j: int| 0 <= j < i ==> v.deep_view()[j] != s@,
        decreases n - i,
    {
        if str_eq(v[i].as_str(), s) {
            assert(v.deep_view()[i as int] == s@);
            return true;
        }
        i = i + 1;
    }
    false
}

/// The mandatory columns of `c` as an executable vector.
pub fn mandatory_columns(c: Collection) -> (v: Vec<String>)
    ensures
        v.deep_view() == mandatory_seq(c),
{
    let mut v: Vec<String> = Vec::new();
    match c {
        Collection::Products => {
            v.push("id".to_owned());
        },
        Collection::Variants => {
            v.push("id".to_owned());
            v.push("sku".to_owned());
            v.push("product_id".to_owned());
        },
        Collection::Media => {
            v.push("id".to_owned());
            v.push("product_id".to_owned());
        },
    }
    proof {
        assert(v.deep_view() =~= mandatory_seq(c));
    }
    v
}

/// Projects the caller's requested field names onto the store's columns:
/// mandatory identifying/foreign-key columns are prepended, each field is
/// normalized and checked against the allow-list, unrecognized and
/// relationship fields are skipped, duplicates are dropped while keeping
/// first-seen order.
pub fn project_columns(c: Collection, fields: &Vec<String>) -> (cols: Vec<String>)
    ensures
        cols.deep_view() == spec_project(c, fields.deep_view()),
{
    let mut cols = mandatory_columns(c);
    let n = fields.len();
    let mut i: usize = 0;
    while i < n
        invariant
            i <= n,
            n == fields.len(),
            cols.deep_view() == spec_project(c, fields.deep_view().take(i as int)),
        decreases n - i,
    {
        proof {
            let pre = fields.deep_view().take(i as int);
            let cur = fields.deep_view().take(i as int + 1);
            assert(cur.drop_last() =~= pre);
            assert(cur.last() == fields.deep_view()[i as int]);
        }
        match resolve_column(c, fields[i].as_str()) {
            Some(col) => {
                if !contains_string(&cols, col.as_str()) {
                    let ghost before = cols.deep_view();
                    cols.push(col);
                    proof {
                        assert(cols.deep_view() =~= before.push(
                            snake_of(fields.deep_view()[i as int]),
                        ));
                    }
                }
            },
            None => {},
        }
        i = i + 1;
    }
    proof {
        assert(fields.deep_view().take(n as int) =~= fields.deep_view());
    }
    cols
}

/// Every mandatory column of `c` is itself allow-listed.
pub proof fn lemma_mandatory_allowed(c: Collection)
    ensures
        forall|i: int|
            0 <= i < mandatory_seq(c).len() ==> is_allowed(c, #[trigger] mandatory_seq(c)[i]),
{
    let m = mandatory_seq(c);
    match c {
        Collection::Products => {
            assert(allowed_seq(c)[0] == m[0]);
            assert(is_allowed(c, m[0]));
        },
        Collection::Variants => {
            assert(allowed_seq(c)[0] == m[0]);
            assert(allowed_seq(c)[2] == m[1]);
            assert(allowed_seq(c)[1] == m[2]);
            assert(is_allowed(c, m[0]));
            assert(is_allowed(c, m[1]));
            assert(is_allowed(c, m[2]));
        },
        Collection::Media => {
            assert(allowed_seq(c)[0] == m[0]);
            assert(allowed_seq(c)[1] == m[1]);
            assert(is_allowed(c, m[0]));
            assert(is_allowed(c, m[1]));
        },
    }
}

/// Column safety: whatever fields the caller supplies, every column in the
/// projected set is drawn from the allow-list of `c`.
pub proof fn lemma_project_allowed(c: Collection, fields: Seq<Seq<char>>)
    ensures
        forall|i: int|
            0 <= i < spec_project(c, fields).len() ==> is_allowed(
                c,
                #[trigger] spec_project(c, fields)[i],
            ),
    decreases fields.len(),
{
    if fields.len() == 0 {
        lemma_mandatory_allowed(c);
    } else {
        lemma_project_allowed(c, fields.drop_last());
        let prev = spec_project(c, fields.drop_last());
        let out = spec_project(c, fields);
        let col = snake_of(fields.last());
        assert forall|i: int| 0 <= i < out.len() implies is_allowed(c, out[i]) by {
            if i < prev.len() {
                assert(out[i] == prev[i]);
            } else {
                assert(out[i] == col);
            }
        }
    }
}

/// The mandatory columns are pairwise distinct.
proof fn lemma_mandatory_distinct(c: Collection)
    ensures
        forall|i: int, j: int|
            0 <= i < j < mandatory_seq(c).len() ==> mandatory_seq(c)[i] != mandatory_seq(c)[j],
{
    reveal_strlit("id");
    reveal_strlit("sku");
    reveal_strlit("product_id");
    let m = mandatory_seq(c);
    match c {
        Collection::Products => {},
        Collection::Variants => {
            assert(m[0].len() == 2 && m[1].len() == 3 && m[2].len() == 10);
        },
        Collection::Media => {
            assert(m[0].len() == 2 && m[1].len() == 10);
        },
    }
}

/// No duplicates: the projected column set never names a column twice.
pub proof fn lemma_project_no_dup(c: Collection, fields: Seq<Seq<char>>)
    ensures
        forall|i: int, j: int|
            0 <= i < j < spec_project(c, fields).len() ==> spec_project(c, fields)[i]
                != spec_project(c, fields)[j],
    decreases fields.len(),
{
    if fields.len() == 0 {
        lemma_mandatory_distinct(c);
    } else {
        lemma_project_no_dup(c, fields.drop_last());
        let prev = spec_project(c, fields.drop_last());
        let out = spec_project(c, fields);
        let col = snake_of(fields.last());
        if is_allowed(c, col) && !prev.contains(col) {
            assert forall|i: int, j: int| 0 <= i < j < out.len() implies out[i] != out[j] by {
                if j == out.len() - 1 {
                    assert(out[i] == prev[i]);
                    assert(!prev.contains(col));
                    assert(prev[i] != col);
                }
            }
        }
    }
}

/// The projected set always begins with the mandatory columns, whatever
/// the caller asked for.
pub proof fn lemma_project_mandatory_prefix(c: Collection, fields: Seq<Seq<char>>)
    ensures
        mandatory_seq(c).is_prefix_of(spec_project(c, fields)),
    decreases fields.len(),
{
    if fields.len() == 0 {
        assert(mandatory_seq(c).is_prefix_of(spec_project(c, fields)));
    } else {
        lemma_project_mandatory_prefix(c, fields.drop_last());
        let prev = spec_project(c, fields.drop_last());
        let out = spec_project(c, fields);
        let m = mandatory_seq(c);
        assert(m.is_prefix_of(prev));
        if out.len() > prev.len() {
            assert(out.take(m.len() as int) =~= prev.take(m.len() as int));
        }
    }
}

} // verus!
