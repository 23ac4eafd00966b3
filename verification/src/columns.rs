//! Caller-facing field names and their backing-store column names.
//!
//! Callers name fields in mixed case (`stockQuantity`); the store names
//! columns in underscore-separated lower case (`stock_quantity`).  The
//! transform is pure and total; whether a normalized name may appear in
//! query text is decided by a fixed allow-list, never by the caller.

use vstd::prelude::*;
use vstd::string::StringExecFns;

verus! {

/// Whether a character counts as uppercase for normalization: what std's
/// char::is_uppercase returns for it.
pub uninterp spec fn upper_of(c: char) -> bool;

/// The lowercase mapping of a character (one or more characters): what
/// std's char::to_lowercase yields for it.
pub uninterp spec fn lowered_of(c: char) -> Seq<char>;

/// Relies on std's char::is_uppercase: whether the character has the
/// Unicode uppercase property.  The result depends on the character alone.
#[verifier::external_body]
fn is_upper_char(c: char) -> (r: bool)
    ensures
        r == upper_of(c),
{
    c.is_uppercase()
}

/// Relies on std's char::to_lowercase: the Unicode lowercase mapping of
/// the character, one or more characters.  The result depends on the
/// character alone.
#[verifier::external_body]
fn lower_chars(c: char) -> (r: String)
    ensures
        r@ == lowered_of(c),
{
    c.to_lowercase().collect()
}

/// Underscore-separated lower case: every uppercase character, except at
/// position 0, is preceded by `_`, and every uppercase character is
/// replaced by its lowercase mapping; all other characters are unchanged.
pub open spec fn snake_of(s: Seq<char>) -> Seq<char>
    decreases s.len(),
{
    if s.len() == 0 {
        Seq::empty()
    } else {
        let done = snake_of(s.drop_last());
        let c = s.last();
        if upper_of(c) {
            if s.len() > 1 {
                done.push('_') + lowered_of(c)
            } else {
                done + lowered_of(c)
            }
        } else {
            done.push(c)
        }
    }
}

/// Relies on std's String::push: appends one character at the end.
#[verifier::external_body]
pub(crate) fn push_char(s: &mut String, c: char)
    ensures
        final(s)@ == old(s)@.push(c),
{
    s.push(c);
}

/// Converts a mixed-case field name to the store's underscore-separated
/// lower-case convention.  Total: any string is accepted.
pub fn to_snake_case(s: &str) -> (r: String)
    ensures
        r@ == snake_of(s@),
{
    let n = s.unicode_len();
    let mut out = String::new();
    let mut i: usize = 0;
    while i < n
        invariant
            i <= n,
            n == s@.len(),
            out@ == snake_of(s@.take(i as int)),
        decreases n - i,
    {
        let c = s.get_char(i);
        if is_upper_char(c) {
            if i != 0 {
                push_char(&mut out, '_');
            }
            let low = lower_chars(c);
            out.append(low.as_str());
        } else {
            push_char(&mut out, c);
        }
        proof {
            let pre = s@.take(i as int);
            let cur = s@.take(i as int + 1);
            assert(cur.drop_last() =~= pre);
            assert(cur.last() == s@[i as int]);
            assert(out@ =~= snake_of(cur));
        }
        i = i + 1;
    }
    proof {
        assert(s@.take(n as int) =~= s@);
    }
    out
}

/// String equality over the character sequences of two string slices.
pub fn str_eq(a: &str, b: &str) -> (r: bool)
    ensures
        r == (a@ == b@),
{
    let x = a.to_owned();
    let y = b.to_owned();
    x == y
}

/// The collection (backing-store table) a request targets.
#[derive(Clone, Copy, PartialEq, Eq, Structural, Debug)]
pub enum Collection {
    Products,
    Variants,
    Media,
}

/// The fixed allow-list: the only column names that may ever reach
/// generated query text, per collection.
pub open spec fn allowed_seq(c: Collection) -> Seq<Seq<char>> {
    match c {
        Collection::Products => seq!["id"@, "name"@, "slug"@, "description"@, "status"@],
        Collection::Variants => seq![
            "id"@,
            "product_id"@,
            "sku"@,
            "price_amount"@,
            "price_currency"@,
            "stock_quantity"@,
            "is_active"@,
            "attributes"@,
        ],
        Collection::Media => seq!["id"@, "product_id"@, "category_id"@, "is_primary"@],
    }
}

/// Whether `name` is an allow-listed column of collection `c`.
pub open spec fn is_allowed(c: Collection, name: Seq<char>) -> bool {
    allowed_seq(c).contains(name)
}

/// The allow-list as an executable vector, in the order of `allowed_seq`.
pub fn allowed_list(c: Collection) -> (v: Vec<&'static str>)
    ensures
        v.deep_view() == allowed_seq(c),
{
    let mut v: Vec<&'static str> = Vec::new();
    match c {
        Collection::Products => {
            v.push("id");
            v.push("name");
            v.push("slug");
            v.push("description");
            v.push("status");
        },
        Collection::Variants => {
            v.push("id");
            v.push("product_id");
            v.push("sku");
            v.push("price_amount");
            v.push("price_currency");
            v.push("stock_quantity");
            v.push("is_active");
            v.push("attributes");
        },
        Collection::Media => {
            v.push("id");
            v.push("product_id");
            v.push("category_id");
            v.push("is_primary");
        },
    }
    proof {
        assert(v.deep_view() =~= allowed_seq(c));
    }
    v
}

/// Maps a caller-supplied field name to the backing-store column it names,
/// or `None` when the normalized name is not allow-listed (relationship
/// fields and unrecognized fields alike).  Total: never an error.
pub fn resolve_column(c: Collection, field: &str) -> (r: Option<String>)
    ensures
        match r {
            Some(col) => col@ == snake_of(field@) && is_allowed(c, col@),
            None => !is_allowed(c, snake_of(field@)),
        },
{
    let col = to_snake_case(field);
    let list = allowed_list(c);
    let n = list.len();
    let mut i: usize = 0;
    while i < n
        invariant
            i <= n,
            n == list.len(),
            list.deep_view() == allowed_seq(c),
            col@ == snake_of(field@),
            forall|j: int| 0 <= j < i ==> list.deep_view()[j] != col@,
        decreases n - i,
    {
        if str_eq(list[i], col.as_str()) {
            assert(is_allowed(c, col@)) by {
                assert(allowed_seq(c)[i as int] == col@);
            }
            return Some(col);
        }
        i = i + 1;
    }
    proof {
        assert(forall|j: int|
            0 <= j < allowed_seq(c).len() ==> allowed_seq(c)[j] != snake_of(field@));
    }
    None
}

} // verus!
