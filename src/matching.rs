use vstd::prelude::*;
use std::cmp::Ordering;
use crate::split::views_of;

verus! {

/// Lexicographic order on character sequences, by code point; a prefix comes first.
pub open spec fn lex_le(a: Seq<char>, b: Seq<char>) -> bool
    decreases a.len(),
{
    if a.len() == 0 {
        true
    } else if b.len() == 0 {
        false
    } else if a[0] != b[0] {
        (a[0] as u32) < (b[0] as u32)
    } else {
        lex_le(a.drop_first(), b.drop_first())
    }
}

/// A sequence of names in ascending lexicographic order.
pub open spec fn sorted_names(s: Seq<Seq<char>>) -> bool {
    forall|i: int, j: int| 0 <= i < j < s.len() ==> lex_le(s[i], s[j])
}

/// The image names that also occur among the label names, in image order.
pub open spec fn matched_spec(images: Seq<Seq<char>>, labels: Seq<Seq<char>>) -> Seq<Seq<char>> {
    images.filter(|x: Seq<char>| labels.contains(x))
}

/// The image names that do not occur among the label names, in image order.
pub open spec fn unmatched_spec(images: Seq<Seq<char>>, labels: Seq<Seq<char>>) -> Seq<Seq<char>> {
    images.filter(|x: Seq<char>| !labels.contains(x))
}

/// Two names that are each at most the other are equal.
pub proof fn lemma_lex_antisymmetric(a: Seq<char>, b: Seq<char>)
    requires
        lex_le(a, b),
        lex_le(b, a),
    ensures
        a == b,
    decreases a.len(),
{
    if a.len() != 0 && b.len() != 0 && a[0] == b[0] {
        lemma_lex_antisymmetric(a.drop_first(), b.drop_first());
        assert(a =~= seq![a[0]] + a.drop_first());
        assert(b =~= seq![b[0]] + b.drop_first());
    } else if a.len() == 0 && b.len() == 0 {
        assert(a =~= b);
    }
}

/// Relies on `slice::sort` (std): the result holds the same names, in the order of
/// `Ord for String`, which compares the UTF-8 bytes and so orders by code point.
#[verifier::external_body]
pub(crate) fn sort_names(v: &mut Vec<String>)
    ensures
        views_of(final(v)@).to_multiset() == views_of(old(v)@).to_multiset(),
        sorted_names(views_of(final(v)@)),
{
    v.sort();
}

/// Relies on `Ord::cmp` for `str` (std): lexicographic by UTF-8 bytes, which is
/// lexicographic by code point.
#[verifier::external_body]
pub(crate) fn compare_names(a: &str, b: &str) -> (r: Ordering)
    ensures
        (r == Ordering::Equal) == (a@ == b@),
        (r == Ordering::Less) == (lex_le(a@, b@) && a@ != b@),
        (r == Ordering::Greater) == !lex_le(a@, b@),
{
    a.cmp(b)
}

/// Tells whether `name` occurs in the sorted `names`, by binary search.
pub fn contains_sorted(names: &Vec<String>, name: &String) -> (r: bool)
    requires
        sorted_names(views_of(names@)),
    ensures
        r == views_of(names@).contains(name@),
{
    let ghost s = views_of(names@);
    let mut lo: usize = 0;
    let mut hi: usize = names.len();
    while lo < hi
        invariant
            lo <= hi <= names@.len(),
            s == views_of(names@),
            sorted_names(s),
            forall|j: int| 0 <= j < lo ==> s[j] != name@,
            forall|j: int| hi <= j < names@.len() ==> s[j] != name@,
        decreases hi - lo,
    {
        let mid = lo + (hi - lo) / 2;
        let c = compare_names(names[mid].as_str(), name.as_str());
        assert(s[mid as int] == names@[mid as int]@);
        match c {
            Ordering::Equal => {
                return true;
            },
            Ordering::Less => {
                assert forall|j: int| 0 <= j <= mid implies s[j] != name@ by {
                    if j < mid && s[j] == name@ {
                        lemma_lex_antisymmetric(s[j], s[mid as int]);
                    }
                }
                lo = mid + 1;
            },
            Ordering::Greater => {
                hi = mid;
            },
        }
    }
    proof {
        if s.contains(name@) {
            let j = choose|j: int| 0 <= j < s.len() && s[j] == name@;
            assert(s[j] == name@);
        }
    }
    false
}

/// The outcome of matching image names against label names.
pub struct NameMatch {
    /// Image names that some label record names, in image order.
    pub matched: Vec<String>,
    /// Image names that no label record names, in image order.
    pub unmatched: Vec<String>,
}

/// Keeps the image names that also occur among the label names, in the order of
/// `image_names`; the others are returned apart. Names must be equal exactly.
pub fn match_image_and_label_names(image_names: Vec<String>, label_names: Vec<String>) -> (r:
    NameMatch)
    ensures
        views_of(r.matched@) == matched_spec(views_of(image_names@), views_of(label_names@)),
        views_of(r.unmatched@) == unmatched_spec(views_of(image_names@), views_of(label_names@)),
{
    let ghost imgs = views_of(image_names@);
    let ghost labs = views_of(label_names@);
    let mut sorted = label_names;
    sort_names(&mut sorted);
    proof {
        views_of(sorted@).to_multiset_ensures();
        labs.to_multiset_ensures();
        assert forall|x: Seq<char>| views_of(sorted@).contains(x) <==> labs.contains(x) by {
            assert(views_of(sorted@).to_multiset().count(x) == labs.to_multiset().count(x));
        }
    }
    let mut matched: Vec<String> = Vec::new();
    let mut unmatched: Vec<String> = Vec::new();
    let mut i: usize = 0;
    while i < image_names.len()
        invariant
            i <= image_names@.len(),
            imgs == views_of(image_names@),
            sorted_names(views_of(sorted@)),
            forall|x: Seq<char>| views_of(sorted@).contains(x) <==> labs.contains(x),
            views_of(matched@) == matched_spec(imgs.take(i as int), labs),
            views_of(unmatched@) == unmatched_spec(imgs.take(i as int), labs),
        decreases image_names@.len() - i,
    {
        let name = image_names[i].clone();
        let found = contains_sorted(&sorted, &name);
        proof {
            reveal(Seq::filter);
            assert(imgs.take(i + 1).drop_last() =~= imgs.take(i as int));
            assert(imgs.take(i + 1).last() == name@);
        }
        if found {
            assert(views_of(matched@.push(name)) =~= views_of(matched@).push(name@));
            matched.push(name);
        } else {
            assert(views_of(unmatched@.push(name)) =~= views_of(unmatched@).push(name@));
            unmatched.push(name);
        }
        i += 1;
    }
    assert(imgs.take(i as int) =~= imgs);
    NameMatch { matched, unmatched }
}

/// Matching yields exactly the image names that are also label names, each as
/// often as among the images, in image order; a name is never both matched and
/// unmatched, and together the two lists account for every image name.
pub proof fn lemma_match_is_intersection(images: Seq<Seq<char>>, labels: Seq<Seq<char>>)
    ensures
        forall|x: Seq<char>|
            #[trigger] matched_spec(images, labels).contains(x) <==> (images.contains(x)
                && labels.contains(x)),
        forall|x: Seq<char>|
            #[trigger] unmatched_spec(images, labels).contains(x) <==> (images.contains(x)
                && !labels.contains(x)),
        matched_spec(images, labels).len() + unmatched_spec(images, labels).len() == images.len(),
        images.no_duplicates() ==> matched_spec(images, labels).no_duplicates(),
    decreases images.len(),
{
    reveal(Seq::filter);
    if images.len() > 0 {
        let rest = images.drop_last();
        lemma_match_is_intersection(rest, labels);
        let m = matched_spec(images, labels);
        let u = unmatched_spec(images, labels);
        let mr = matched_spec(rest, labels);
        let ur = unmatched_spec(rest, labels);
        assert(images =~= rest.push(images.last()));
        if labels.contains(images.last()) {
            assert(m == mr.push(images.last()));
            assert(u == ur);
        } else {
            assert(m == mr);
            assert(u == ur.push(images.last()));
        }
        assert forall|x: Seq<char>| #[trigger] m.contains(x) <==> (images.contains(x)
            && labels.contains(x)) by {
            if images.contains(x) && labels.contains(x) && x != images.last() {
                let j = choose|j: int| 0 <= j < images.len() && images[j] == x;
                assert(rest[j] == x);
                assert(mr.contains(x));
                let k = choose|k: int| 0 <= k < mr.len() && mr[k] == x;
                assert(m[k] == x);
            }
            if m.contains(x) && x != images.last() {
                let k = choose|k: int| 0 <= k < m.len() && m[k] == x;
                assert(mr[k] == x);
                assert(mr.contains(x));
                assert(rest.contains(x));
                let j = choose|j: int| 0 <= j < rest.len() && rest[j] == x;
                assert(images[j] == x);
            }
            if images.contains(x) && labels.contains(x) && x == images.last() {
                assert(m[m.len() - 1] == x);
            }
        }
        assert forall|x: Seq<char>| #[trigger] u.contains(x) <==> (images.contains(x)
            && !labels.contains(x)) by {
            if images.contains(x) && !labels.contains(x) && x != images.last() {
                let j = choose|j: int| 0 <= j < images.len() && images[j] == x;
                assert(rest[j] == x);
                assert(ur.contains(x));
                let k = choose|k: int| 0 <= k < ur.len() && ur[k] == x;
                assert(u[k] == x);
            }
            if u.contains(x) && x != images.last() {
                let k = choose|k: int| 0 <= k < u.len() && u[k] == x;
                assert(ur[k] == x);
                assert(ur.contains(x));
                assert(rest.contains(x));
                let j = choose|j: int| 0 <= j < rest.len() && rest[j] == x;
                assert(images[j] == x);
            }
            if images.contains(x) && !labels.contains(x) && x == images.last() {
                assert(u[u.len() - 1] == x);
            }
        }
        if images.no_duplicates() {
            assert(rest.no_duplicates());
            if labels.contains(images.last()) {
                assert(!rest.contains(images.last()));
                assert(!mr.contains(images.last()));
                assert(m =~= mr.push(images.last()));
            }
        }
    }
}

} // verus!
