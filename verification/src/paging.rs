//! Pagination of the top-level products query: integer cursors, page
//! parameters, and assembly of the connection handed back to the caller.

use vstd::prelude::*;

use crate::columns::push_char;

verus! {

/// The decimal digit character for `d` (`0 <= d <= 9`).
pub open spec fn dec_digit(d: int) -> char {
    (48 + d) as char
}

/// The decimal representation of `n >= 0`, most significant digit first.
pub open spec fn dec_rep(n: int) -> Seq<char>
    decreases n,
{
    if n < 10 {
        seq![dec_digit(if n < 0 {
            0
        } else {
            n
        })]
    } else {
        dec_rep(n / 10).push(dec_digit(n % 10))
    }
}

/// Appends the decimal representation of `n` to `out`.
fn push_decimal(out: &mut String, n: u32)
    ensures
        final(out)@ == old(out)@ + dec_rep(n as int),
    decreases n,
{
    if n >= 10 {
        push_decimal(out, n / 10);
    }
    let rest: u32 = n % 10;
    let d: u8 = rest as u8 + 48;
    assert(rest as u8 == n % 10) by (bit_vector)
        requires
            rest == n % 10,
    ;
    push_char(out, d as char);
    proof {
        if n < 10 {
            assert(old(out)@ + dec_rep(n as int) =~= old(out)@.push(d as char));
        } else {
            assert(old(out)@ + dec_rep(n as int) =~= (old(out)@ + dec_rep(n as int / 10)).push(
                d as char,
            ));
        }
    }
}

/// The cursor text for position `n`: its decimal representation.
pub fn format_cursor(n: u32) -> (r: String)
    ensures
        r@ == dec_rep(n as int),
{
    let mut out = String::new();
    push_decimal(&mut out, n);
    proof {
        assert(out@ =~= dec_rep(n as int));
    }
    out
}

/// A decimal digit character.
pub open spec fn is_dec_digit(c: char) -> bool {
    48 <= c as int <= 57
}

/// The value of a digit string, most significant digit first.
pub open spec fn digits_val(s: Seq<char>) -> int
    decreases s.len(),
{
    if s.len() == 0 {
        0
    } else {
        digits_val(s.drop_last()) * 10 + (s.last() as int - 48)
    }
}

/// A cursor this module accepts: a non-empty string of decimal digits
/// whose value fits the cursor space.
pub open spec fn valid_cursor(s: Seq<char>) -> bool {
    &&& s.len() > 0
    &&& forall|i: int| 0 <= i < s.len() ==> is_dec_digit(#[trigger] s[i])
    &&& digits_val(s) <= u32::MAX
}

/// A digit string's value is at least its every prefix's value, and not
/// negative.
proof fn lemma_digits_monotone(s: Seq<char>, i: int)
    requires
        forall|j: int| 0 <= j < s.len() ==> is_dec_digit(#[trigger] s[j]),
        0 <= i <= s.len(),
    ensures
        0 <= digits_val(s.take(i)) <= digits_val(s),
    decreases s.len(),
{
    if s.len() == 0 {
        assert(s.take(i) =~= s);
    } else {
        let pre = s.drop_last();
        assert(forall|j: int| 0 <= j < pre.len() ==> is_dec_digit(#[trigger] pre[j]));
        lemma_digits_monotone(pre, if i <= pre.len() {
            i
        } else {
            pre.len() as int
        });
        if i <= pre.len() {
            assert(s.take(i) =~= pre.take(i));
        } else {
            assert(s.take(i) =~= s);
            lemma_digits_monotone(pre, pre.len() as int);
            assert(pre.take(pre.len() as int) =~= pre);
        }
        assert(digits_val(s) == digits_val(pre) * 10 + (s.last() as int - 48));
        assert(s.last() as int - 48 >= 0);
        assert(digits_val(pre) * 10 >= digits_val(pre)) by (nonlinear_arith)
            requires
                digits_val(pre) >= 0,
        ;
    }
}

/// Parses a cursor: the value of a non-empty, all-digit string that fits;
/// anything else — empty, a non-digit, or too large — yields `None`.
pub fn parse_cursor(s: &str) -> (r: Option<u32>)
    ensures
        match r {
            Some(v) => valid_cursor(s@) && v as int == digits_val(s@),
            None => !valid_cursor(s@),
        },
{
    let n = s.unicode_len();
    if n == 0 {
        return None;
    }
    let mut v: u32 = 0;
    let mut i: usize = 0;
    while i < n
        invariant
            i <= n,
            n == s@.len(),
            n > 0,
            forall|j: int| 0 <= j < i ==> is_dec_digit(#[trigger] s@[j]),
            v as int == digits_val(s@.take(i as int)),
        decreases n - i,
    {
        let c = s.get_char(i);
        let u = c as u32;
        if u < 48 || u > 57 {
            assert(!is_dec_digit(s@[i as int]));
            return None;
        }
        let d: u32 = u - 48;
        proof {
            let pre = s@.take(i as int);
            let cur = s@.take(i as int + 1);
            assert(cur.drop_last() =~= pre);
            assert(cur.last() == s@[i as int]);
        }
        if v > (u32::MAX - d) / 10 {
            proof {
                let cur = s@.take(i as int + 1);
                assert(digits_val(cur) == v as int * 10 + d) by {
                    assert(cur.drop_last() =~= s@.take(i as int));
                }
                assert(v as int * 10 + d > u32::MAX) by (nonlinear_arith)
                    requires
                        v as int > (u32::MAX - d) / 10,
                        0 <= d <= 9,
                ;
                if valid_cursor(s@) {
                    lemma_digits_monotone(s@, i as int + 1);
                }
            }
            return None;
        }
        assert(v as int * 10 + d <= u32::MAX) by (nonlinear_arith)
            requires
                v as int <= (u32::MAX - d) / 10,
                0 <= d <= 9,
        ;
        v = v * 10 + d;
        i = i + 1;
    }
    proof {
        assert(s@.take(n as int) =~= s@);
    }
    Some(v)
}

/// Cursor round trip: the decimal representation of any cursor position
/// is a valid cursor that encodes exactly that position, so formatting a
/// position and parsing it back always restores it.
pub proof fn lemma_cursor_round_trip(n: int)
    requires
        0 <= n <= u32::MAX,
    ensures
        valid_cursor(dec_rep(n)),
        digits_val(dec_rep(n)) == n,
    decreases n,
{
    if n < 10 {
        let s = dec_rep(n);
        assert(s =~= seq![dec_digit(n)]);
        assert(s.drop_last() =~= Seq::<char>::empty());
        assert(digits_val(Seq::<char>::empty()) == 0);
        assert(digits_val(s.drop_last()) == 0);
        assert(dec_digit(n) as int == 48 + n);
        assert(digits_val(s) == n);
    } else {
        lemma_cursor_round_trip(n / 10);
        let s = dec_rep(n);
        let pre = dec_rep(n / 10);
        assert(s == pre.push(dec_digit(n % 10)));
        assert(s.drop_last() =~= pre);
        assert(s.last() == dec_digit(n % 10));
        assert(dec_digit(n % 10) as int == 48 + n % 10);
        assert(is_dec_digit(dec_digit(n % 10)));
        assert(digits_val(s) == digits_val(pre) * 10 + n % 10);
        vstd::arithmetic::div_mod::lemma_fundamental_div_mod(n, 10);
        assert(digits_val(s) == n);
        assert forall|i: int| 0 <= i < s.len() implies is_dec_digit(#[trigger] s[i]) by {
            if i < pre.len() {
                assert(s[i] == pre[i]);
            }
        }
    }
}

/// The page offset encoded by an optional cursor: its value when it is a
/// valid cursor fitting the store's signed parameter space, else zero.
pub open spec fn offset_of(after: Option<Seq<char>>) -> int {
    match after {
        Some(s) => if valid_cursor(s) && digits_val(s) <= i32::MAX {
            digits_val(s)
        } else {
            0
        },
        None => 0,
    }
}

/// The page parameters of one top-level products request: the caller's
/// limit (ten when unspecified) and the offset its cursor encodes.
pub fn page_params(first: Option<i32>, after: Option<&str>) -> (r: (i32, i32))
    ensures
        r.0 == match first {
            Some(f) => f,
            None => 10i32,
        },
        r.1 as int == offset_of(
            match after {
                Some(s) => Some(s@),
                None => None,
            },
        ),
{
    let limit = match first {
        Some(f) => f,
        None => 10,
    };
    let offset: i32 = match after {
        Some(s) => {
            match parse_cursor(s) {
                Some(v) => {
                    if v <= 0x7fff_ffff {
                        let o: i32 = v as i32;
                        assert(v as i32 == v) by (bit_vector)
                            requires
                                v <= 0x7fff_ffff,
                        ;
                        o
                    } else {
                        0
                    }
                },
                None => 0,
            }
        },
        None => 0,
    };
    (limit, offset)
}

/// One product row of the paged top-level query.
pub struct ProductGQL {
    pub id: i32,
    pub name: Option<String>,
    pub slug: Option<String>,
    pub description: Option<String>,
    pub status: Option<String>,
}

impl Clone for ProductGQL {
    /// A clone equals the original row.
    fn clone(&self) -> (r: Self)
        ensures
            r == *self,
    {
        ProductGQL {
            id: self.id,
            name: self.name.clone(),
            slug: self.slug.clone(),
            description: self.description.clone(),
            status: self.status.clone(),
        }
    }
}

/// The caller-facing filter of the products listing.
pub struct ProductFilter {
    pub category_slug: Option<String>,
    pub in_stock: Option<bool>,
}

/// One edge of the paged connection: a product and its position cursor.
pub struct ProductEdge {
    pub cursor: String,
    pub node: ProductGQL,
}

/// The paged connection handed back for a top-level products request.
pub struct ProductConnection {
    pub has_previous_page: bool,
    pub has_next_page: bool,
    pub edges: Vec<ProductEdge>,
}

/// Assembles the connection for one page: at most `limit` of the fetched
/// products become edges, each with the cursor of its absolute position;
/// an extra fetched row signals a next page, a positive offset a previous
/// one.
pub fn build_connection(products: Vec<ProductGQL>, offset: i32, limit: i32) -> (c:
    ProductConnection)
    requires
        0 <= offset,
        0 <= limit,
        offset + products@.len() <= i32::MAX,
    ensures
        c.has_previous_page == (offset > 0),
        c.has_next_page == (products@.len() > limit),
        c.edges@.len() == if products@.len() < limit {
            products@.len() as int
        } else {
            limit as int
        },
        forall|i: int|
            0 <= i < c.edges@.len() ==> (#[trigger] c.edges@[i]).node == products@[i]
                && c.edges@[i].cursor@ == dec_rep(offset + i),
{
    let has_previous_page = offset > 0;
    let has_next_page = products.len() > limit as usize;
    let count = if products.len() < limit as usize {
        products.len()
    } else {
        limit as usize
    };
    let mut cur: u32 = offset as u32;
    assert(offset as u32 == offset) by (bit_vector)
        requires
            0 <= offset < 0x8000_0000,
    ;
    let mut edges: Vec<ProductEdge> = Vec::new();
    let mut i: usize = 0;
    while i < count
        invariant
            i <= count,
            count <= products@.len(),
            offset + products@.len() <= i32::MAX,
            0 <= offset,
            cur as int == offset + i,
            edges@.len() == i,
            forall|j: int|
                0 <= j < i ==> (#[trigger] edges@[j]).node == products@[j] && edges@[j].cursor@
                    == dec_rep(offset + j),
        decreases count - i,
    {
        let cursor = format_cursor(cur);
        let node = products[i].clone();
        edges.push(ProductEdge { cursor, node });
        cur = cur + 1;
        i = i + 1;
    }
    ProductConnection { has_previous_page, has_next_page, edges }
}

} // verus!
