//! Views of nested vectors.
use vstd::prelude::*;

verus! {

/// The deep view of a sequence of owned values.
pub open spec fn dview<T: DeepView>(s: Seq<T>) -> Seq<T::V> {
    Seq::new(s.len(), |i: int| s[i].deep_view())
}

pub proof fn lemma_dview_push<T: DeepView>(s: Seq<T>, x: T)
    ensures
        dview(s.push(x)) == dview(s).push(x.deep_view()),
{
    assert(dview(s.push(x)) =~= dview(s).push(x.deep_view()));
}

/// A vector of characters deep-views as its plain view.
pub broadcast proof fn lemma_char_vec_deep_view(v: Vec<char>)
    ensures
        #[trigger] v.deep_view() == v@,
{
    assert(v.deep_view() =~= v@);
}

pub proof fn lemma_vec_dview<T: DeepView>(v: Vec<T>)
    ensures
        v.deep_view() == dview(v@),
{
    assert(v.deep_view() =~= dview(v@));
}

} // verus!
