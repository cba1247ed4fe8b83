use vstd::prelude::*;

use indexmap::IndexSet;

verus! {

#[verifier::external_type_specification]
#[verifier::external_body]
#[verifier::reject_recursive_types(T)]
#[verifier::reject_recursive_types(S)]
pub struct ExIndexSet<T, S>(IndexSet<T, S>);

/// A colour: red, green and blue.
pub type Rgb = (u8, u8, u8);

/// What a set of colours holds, in insertion order.
pub uninterp spec fn palette_items(set: IndexSet<Rgb>) -> Seq<Rgb>;

/// `IndexSet::new` (indexmap): an empty set.
#[verifier::external_body]
pub(crate) fn palette_new() -> (set: IndexSet<Rgb>)
    ensures
        palette_items(set) == Seq::<Rgb>::empty(),
{
    IndexSet::new()
}

/// `IndexSet::insert` (indexmap): a colour that the set already holds leaves
/// the set as it is and gives `false`; another is added last and gives
/// `true`.
#[verifier::external_body]
pub(crate) fn palette_insert(set: &mut IndexSet<Rgb>, color: Rgb) -> (added: bool)
    ensures
        palette_items(*old(set)).contains(color) ==> !added && palette_items(*final(set))
            == palette_items(*old(set)),
        !palette_items(*old(set)).contains(color) ==> added && palette_items(*final(set))
            == palette_items(*old(set)).push(color),
{
    set.insert(color)
}

/// `IndexSet::len` (indexmap): the number of colours in the set.
#[verifier::external_body]
pub(crate) fn palette_len(set: &IndexSet<Rgb>) -> (n: usize)
    ensures
        n == palette_items(*set).len(),
{
    set.len()
}

/// `IndexSet::get_index` (indexmap): the colour at position `index` in
/// insertion order, if there is one.
#[verifier::external_body]
pub(crate) fn palette_get(set: &IndexSet<Rgb>, index: usize) -> (c: Option<Rgb>)
    ensures
        index < palette_items(*set).len() ==> c == Some(palette_items(*set)[index as int]),
        index >= palette_items(*set).len() ==> c is None,
{
    set.get_index(index).copied()
}

/// The distinct items of `s` in the order of their first occurrence.
pub open spec fn distinct_in_order(s: Seq<Rgb>) -> Seq<Rgb>
    decreases s.len(),
{
    if s.len() == 0 {
        Seq::empty()
    } else {
        let p = distinct_in_order(s.drop_last());
        if p.contains(s.last()) {
            p
        } else {
            p.push(s.last())
        }
    }
}

/// The pixels of all the images, image after image.
pub open spec fn all_pixels(images: Seq<Vec<Rgb>>) -> Seq<Rgb>
    decreases images.len(),
{
    if images.len() == 0 {
        Seq::empty()
    } else {
        all_pixels(images.drop_last()) + images.last()@
    }
}

/// Adds the colours of `pixels` to `set`, in order.
pub(crate) fn insert_colors(set: &mut IndexSet<Rgb>, pixels: &[Rgb], Ghost(seen): Ghost<Seq<Rgb>>)
    requires
        palette_items(*old(set)) == distinct_in_order(seen),
    ensures
        palette_items(*final(set)) == distinct_in_order(seen + pixels@),
{
    let n = pixels.len();
    let mut i: usize = 0;
    while i < n
        invariant
            n == pixels@.len(),
            i <= n,
            palette_items(*set) == distinct_in_order(seen + pixels@.subrange(0, i as int)),
        decreases n - i,
    {
        let ghost before = seen + pixels@.subrange(0, i as int);
        palette_insert(set, pixels[i]);
        i = i + 1;
        assert((seen + pixels@.subrange(0, i as int)).drop_last() =~= before);
    }
    assert(seen + pixels@.subrange(0, n as int) =~= seen + pixels@);
}

/// The palette of a sequence of images: every colour that occurs in them,
/// once, in the order of its first occurrence (images in order, pixels of
/// an image in row-major order).
pub fn get_palette_from_images(images: &[Vec<Rgb>]) -> (palette: IndexSet<Rgb>)
    ensures
        palette_items(palette) == distinct_in_order(all_pixels(images@)),
{
    let mut palette = palette_new();
    let n = images.len();
    let mut k: usize = 0;
    while k < n
        invariant
            n == images@.len(),
            k <= n,
            palette_items(palette) == distinct_in_order(all_pixels(images@.subrange(0, k as int))),
        decreases n - k,
    {
        let ghost seen = all_pixels(images@.subrange(0, k as int));
        insert_colors(&mut palette, images[k].as_slice(), Ghost(seen));
        k = k + 1;
        assert(images@.subrange(0, k as int).drop_last() =~= images@.subrange(0, k - 1));
    }
    assert(images@.subrange(0, n as int) =~= images@);
    palette
}

/// The colours of `s.push(x)` are those of `s` and `x`.
proof fn lemma_contains_push(s: Seq<Rgb>, x: Rgb, c: Rgb)
    ensures
        s.push(x).contains(c) <==> (s.contains(c) || c == x),
{
    if s.contains(c) {
        let i = choose|i: int| 0 <= i < s.len() && s[i] == c;
        assert(s.push(x)[i] == c);
    }
    if c == x {
        assert(s.push(x)[s.len() as int] == c);
    }
    if s.push(x).contains(c) {
        let i = choose|i: int| 0 <= i < s.push(x).len() && s.push(x)[i] == c;
        if i < s.len() {
            assert(s[i] == c);
        }
    }
}

/// A palette never holds a colour twice, and holds exactly the colours that
/// occur in the pixels it was built from.
pub proof fn lemma_distinct_in_order(s: Seq<Rgb>)
    ensures
        distinct_in_order(s).no_duplicates(),
        forall|c: Rgb| #[trigger] distinct_in_order(s).contains(c) <==> s.contains(c),
    decreases s.len(),
{
    if s.len() > 0 {
        let t = s.drop_last();
        let x = s.last();
        let p = distinct_in_order(t);
        lemma_distinct_in_order(t);
        assert(s =~= t.push(x));
        assert forall|c: Rgb| #[trigger] distinct_in_order(s).contains(c) <==> s.contains(c) by {
            lemma_contains_push(t, x, c);
            lemma_contains_push(p, x, c);
        }
        if !p.contains(x) {
            let d = p.push(x);
            assert forall|i: int, j: int| 0 <= i < d.len() && 0 <= j < d.len() && i != j implies d[i]
                != d[j] by {
                if j == p.len() {
                    assert(d[i] == p[i]);
                } else if i == p.len() {
                    assert(d[j] == p[j]);
                } else {
                    assert(d[i] == p[i] && d[j] == p[j]);
                }
            }
        }
    }
}

} // verus!
