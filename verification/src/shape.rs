//! Shapes: the axes of a tensor, outermost first.

use vstd::prelude::*;

verus! {

/// One axis of a tensor: its extent and, optionally, its name.
#[derive(Clone, Debug, PartialEq, Eq)]
pub struct Dimension {
    pub size: u64,
    pub name: Option<String>,
}

impl Dimension {
    /// The name as it enters a key: the name itself, or nothing where the
    /// axis has none.
    pub open spec fn name_or_empty(&self) -> Seq<char> {
        match self.name {
            Some(name) => name@,
            None => Seq::empty(),
        }
    }

    /// An axis with a name.
    pub fn named(size: u64, name: &str) -> (dim: Dimension)
        ensures
            dim.size == size,
            dim.name_or_empty() == name@,
            dim.name is Some,
    {
        Dimension { size, name: Some(name.to_owned()) }
    }

    /// An axis without a name.
    pub fn unnamed(size: u64) -> (dim: Dimension)
        ensures
            dim.size == size,
            dim.name is None,
    {
        Dimension { size, name: None }
    }

    /// The name as it enters a key.
    pub fn key_name(&self) -> (name: String)
        ensures
            name@ == self.name_or_empty(),
    {
        match &self.name {
            Some(name) => name.clone(),
            None => String::new(),
        }
    }
}

/// The number of elements that a shape spans: the product of its sizes, 1 for
/// the shape without axes.
pub open spec fn element_count(shape: Seq<Dimension>) -> nat
    decreases shape.len(),
{
    if shape.len() == 0 {
        1
    } else {
        shape[0].size as nat * element_count(shape.drop_first())
    }
}

/// The number of paths through all axes but the innermost: the product of
/// their sizes.
pub open spec fn path_count(shape: Seq<Dimension>) -> nat
    recommends
        shape.len() >= 1,
{
    element_count(shape.drop_last())
}

/// The bound at which the traversal stops counting: above every length that
/// a buffer can have.
pub const CEILING: u128 = 0x1_0000_0000_0000_0000u128;

/// A number held down to the ceiling.
pub open spec fn capped(n: int) -> int {
    if n < CEILING as int {
        n
    } else {
        CEILING as int
    }
}

/// Capping a product is capping the product of the capped factor.
pub proof fn lemma_capped_product(count: int, size: int)
    requires
        0 <= count,
        0 <= size,
    ensures
        capped(count * size) == capped(capped(count) * size),
{
    if count >= CEILING as int {
        if size == 0 {
            assert(count * size == 0) by (nonlinear_arith)
                requires
                    size == 0,
            ;
            assert((CEILING as int) * size == 0) by (nonlinear_arith)
                requires
                    size == 0,
            ;
        } else {
            assert(count * size >= CEILING as int) by (nonlinear_arith)
                requires
                    count >= CEILING as int,
                    size >= 1,
            ;
            assert((CEILING as int) * size >= CEILING as int) by (nonlinear_arith)
                requires
                    size >= 1,
            ;
        }
    }
}

/// Counts the elements that a shape spans, up to the ceiling.
pub fn capped_element_count(shape: &[Dimension]) -> (count: u128)
    ensures
        count as int == capped(element_count(shape@) as int),
{
    let mut count: u128 = 1;
    let mut at: usize = shape.len();
    assert(shape@.skip(at as int) =~= Seq::<Dimension>::empty());
    while at > 0
        invariant
            at <= shape.len(),
            count as int == capped(element_count(shape@.skip(at as int)) as int),
        decreases at,
    {
        at = at - 1;
        let size: u128 = shape[at].size as u128;
        proof {
            let tail = shape@.skip(at as int);
            assert(tail.drop_first() =~= shape@.skip(at as int + 1));
            assert(tail[0] == shape@[at as int]);
            let rest = element_count(tail.drop_first()) as int;
            assert(element_count(tail) as int == size as int * rest);
            lemma_capped_product(rest, size as int);
            assert(size as int * rest == rest * size as int) by (nonlinear_arith);
            assert(count * size <= CEILING * size) by (nonlinear_arith)
                requires
                    count <= CEILING,
            ;
            assert(CEILING * size <= CEILING * 0xffff_ffff_ffff_ffffu128) by (nonlinear_arith)
                requires
                    size <= 0xffff_ffff_ffff_ffffu128,
            ;
        }
        let wide: u128 = count * size;
        count = if wide < CEILING {
            wide
        } else {
            CEILING
        };
    }
    assert(shape@.skip(0) =~= shape@);
    count
}

} // verus!
