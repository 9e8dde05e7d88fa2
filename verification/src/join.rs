use vstd::prelude::*;

verus! {

/// The sequence of items laid end to end with `sep` between neighbours.
pub open spec fn join_with<T>(items: Seq<Seq<T>>, sep: Seq<T>) -> Seq<T>
    decreases items.len(),
{
    if items.len() == 0 {
        Seq::empty()
    } else if items.len() == 1 {
        items[0]
    } else {
        items[0] + sep + join_with(items.skip(1), sep)
    }
}

/// Joining one more item appends a separator and the item, except onto an
/// empty list.
pub proof fn lemma_join_with_push<T>(items: Seq<Seq<T>>, sep: Seq<T>, last: Seq<T>)
    ensures
        join_with(items.push(last), sep) == (if items.len() == 0 {
            last
        } else {
            join_with(items, sep) + sep + last
        }),
    decreases items.len(),
{
    if items.len() == 0 {
        assert(items.push(last).len() == 1);
        assert(items.push(last)[0] == last);
    } else {
        lemma_join_with_push(items.skip(1), sep, last);
        assert(items.push(last).skip(1) =~= items.skip(1).push(last));
        if items.len() == 1 {
            assert(join_with(items.push(last), sep) == items[0] + sep + last);
        } else {
            assert((items[0] + sep + (join_with(items.skip(1), sep) + sep + last)) =~= ((items[0]
                + sep + join_with(items.skip(1), sep)) + sep + last));
        }
    }
}

} // verus!
