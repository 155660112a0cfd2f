//! Collecting nested sequences into one collection.

use vstd::prelude::*;

verus! {

/// A collection that can be made of nested sequences of items.
pub trait FromNestedIterator<A>: Sized {
    /// The collection holds exactly these items, in this order.
    spec fn holds(self, items: Seq<A>) -> bool;

    /// Whether room for this many items can be asked for.
    spec fn has_capacity(capacity: usize) -> bool;

    /// Collects the items of all the inner sequences, the first ones first.
    /// `capacity` is how many are expected.
    fn from_iter_nested(iter: Vec<Vec<A>>, capacity: usize) -> (collected: Self)
        requires
            Self::has_capacity(capacity),
        ensures
            collected.holds(flattened(iter@)),
    ;
}

/// The items of nested sequences, one after the other.
pub open spec fn flattened<A>(nested: Seq<Vec<A>>) -> Seq<A>
    decreases nested.len(),
{
    if nested.len() == 0 {
        Seq::empty()
    } else {
        flattened(nested.drop_last()) + nested.last()@
    }
}

impl<A> FromNestedIterator<A> for Vec<A> {
    open spec fn holds(self, items: Seq<A>) -> bool {
        self@ == items
    }

    open spec fn has_capacity(capacity: usize) -> bool {
        capacity * vstd::layout::size_of::<A>() <= isize::MAX
    }

    fn from_iter_nested(iter: Vec<Vec<A>>, capacity: usize) -> (collected: Self) {
        let ghost nested = iter@;
        let mut out: Vec<A> = Vec::with_capacity(capacity);
        assert(out@ =~= flattened(nested.take(0)));
        for inner in it: iter.into_iter()
            invariant
                it.seq() == nested,
                out@ == flattened(nested.take(it.index())),
        {
            let ghost n = it.index();
            let ghost before = out@;
            let ghost items = inner@;
            proof {
                assert(nested.take(n + 1).drop_last() =~= nested.take(n));
                assert(nested.take(n + 1).last() == inner);
                assert(before + items.take(0) =~= before);
            }
            for v in values: inner.into_iter()
                invariant
                    values.seq() == items,
                    out@ == before + items.take(values.index()),
            {
                let ghost k = values.index();
                out.push(v);
                assert(out@ =~= before + items.take(k + 1));
            }
            assert(items.take(items.len() as int) =~= items);
        }
        assert(nested.take(nested.len() as int) =~= nested);
        out
    }
}

/// Nested sequences that can be collected.
pub trait CollectNested<A>: Sized {
    /// The inner sequences.
    spec fn nested(self) -> Seq<Vec<A>>;

    /// Collects the items of all the inner sequences.
    fn collect_nested<T: FromNestedIterator<A>>(self, capacity: usize) -> (collected: T)
        requires
            T::has_capacity(capacity),
        ensures
            collected.holds(flattened(self.nested())),
    ;
}

impl<A> CollectNested<A> for Vec<Vec<A>> {
    open spec fn nested(self) -> Seq<Vec<A>> {
        self@
    }

    fn collect_nested<T: FromNestedIterator<A>>(self, capacity: usize) -> (collected: T) {
        T::from_iter_nested(self, capacity)
    }
}

/// A named column in chunks, where `None` is null.
pub struct ChunkedArray<T> {
    pub name: String,
    pub chunks: Vec<Vec<Option<T>>>,
}

/// A column without nulls.
pub struct NoNull<T>(pub T);

impl<T> FromNestedIterator<Option<T>> for ChunkedArray<T> {
    open spec fn holds(self, items: Seq<Option<T>>) -> bool {
        &&& self.name@ == Seq::<char>::empty()
        &&& self.chunks@.len() == 1
        &&& self.chunks@[0]@ == items
    }

    open spec fn has_capacity(capacity: usize) -> bool {
        capacity * vstd::layout::size_of::<Option<T>>() <= isize::MAX
    }

    fn from_iter_nested(iter: Vec<Vec<Option<T>>>, capacity: usize) -> (collected: Self) {
        let arr: Vec<Option<T>> = iter.collect_nested(capacity);
        let mut chunks: Vec<Vec<Option<T>>> = Vec::new();
        chunks.push(arr);
        ChunkedArray { name: String::new(), chunks }
    }
}

impl<T> FromNestedIterator<T> for NoNull<ChunkedArray<T>> {
    open spec fn holds(self, items: Seq<T>) -> bool {
        &&& self.0.name@ == Seq::<char>::empty()
        &&& self.0.chunks@.len() == 1
        &&& self.0.chunks@[0]@ == items.map_values(|item: T| Some(item))
    }

    open spec fn has_capacity(capacity: usize) -> bool {
        capacity * vstd::layout::size_of::<T>() <= isize::MAX
    }

    fn from_iter_nested(iter: Vec<Vec<T>>, capacity: usize) -> (collected: Self) {
        let v: Vec<T> = iter.collect_nested(capacity);
        let ghost items = v@;
        let mut chunk: Vec<Option<T>> = Vec::new();
        for item in it: v.into_iter()
            invariant
                it.seq() == items,
                chunk@.len() == it.index(),
                forall|k: int| 0 <= k < chunk@.len() ==> #[trigger] chunk@[k] == Some(items[k]),
        {
            chunk.push(Some(item));
        }
        assert(chunk@ =~= items.map_values(|item: T| Some(item)));
        let mut chunks: Vec<Vec<Option<T>>> = Vec::new();
        chunks.push(chunk);
        NoNull(ChunkedArray { name: String::new(), chunks })
    }
}

/// An array of strings, where `None` is null.
pub struct Utf8ViewArray {
    pub values: Vec<Option<String>>,
}

/// An array of byte strings, where `None` is null.
pub struct BinaryViewArray {
    pub values: Vec<Option<Vec<u8>>>,
}

/// The characters of a string that is there.
pub open spec fn characters(value: Option<String>) -> Option<Seq<char>> {
    match value {
        Some(value) => Some(value@),
        None => None,
    }
}

/// The bytes of a byte string that is there.
pub open spec fn bytes(value: Option<Vec<u8>>) -> Option<Seq<u8>> {
    match value {
        Some(value) => Some(value@),
        None => None,
    }
}

impl<'a> FromNestedIterator<Option<&'a str>> for Utf8ViewArray {
    open spec fn holds(self, items: Seq<Option<&'a str>>) -> bool {
        &&& self.values@.len() == items.len()
        &&& forall|i: int|
            0 <= i < items.len() ==> characters(#[trigger] self.values@[i]) == match items[i] {
                Some(item) => Some(item@),
                None => None,
            }
    }

    open spec fn has_capacity(capacity: usize) -> bool {
        capacity * vstd::layout::size_of::<Option<&'a str>>() <= isize::MAX
    }

    fn from_iter_nested(iter: Vec<Vec<Option<&'a str>>>, capacity: usize) -> (collected: Self) {
        let items: Vec<Option<&'a str>> = iter.collect_nested(capacity);
        let mut values: Vec<Option<String>> = Vec::new();
        let mut i: usize = 0;
        while i < items.len()
            invariant
                i <= items@.len(),
                values@.len() == i,
                forall|k: int|
                    0 <= k < i ==> characters(#[trigger] values@[k]) == match items@[k] {
                        Some(item) => Some(item@),
                        None => None,
                    },
            decreases items@.len() - i,
        {
            let value: Option<String> = match items[i] {
                Some(item) => Some(item.to_owned()),
                None => None,
            };
            values.push(value);
            i = i + 1;
        }
        Utf8ViewArray { values }
    }
}

impl<'a> FromNestedIterator<Option<&'a [u8]>> for BinaryViewArray {
    open spec fn holds(self, items: Seq<Option<&'a [u8]>>) -> bool {
        &&& self.values@.len() == items.len()
        &&& forall|i: int|
            0 <= i < items.len() ==> bytes(#[trigger] self.values@[i]) == match items[i] {
                Some(item) => Some(item@),
                None => None,
            }
    }

    open spec fn has_capacity(capacity: usize) -> bool {
        capacity * vstd::layout::size_of::<Option<&'a [u8]>>() <= isize::MAX
    }

    fn from_iter_nested(iter: Vec<Vec<Option<&'a [u8]>>>, capacity: usize) -> (collected: Self) {
        let items: Vec<Option<&'a [u8]>> = iter.collect_nested(capacity);
        let mut values: Vec<Option<Vec<u8>>> = Vec::new();
        let mut i: usize = 0;
        while i < items.len()
            invariant
                i <= items@.len(),
                values@.len() == i,
                forall|k: int|
                    0 <= k < i ==> bytes(#[trigger] values@[k]) == match items@[k] {
                        Some(item) => Some(item@),
                        None => None,
                    },
            decreases items@.len() - i,
        {
            let value: Option<Vec<u8>> = match items[i] {
                Some(item) => {
                    let mut copy: Vec<u8> = Vec::new();
                    copy.extend_from_slice(item);
                    assert(copy@ =~= item@);
                    Some(copy)
                },
                None => None,
            };
            values.push(value);
            i = i + 1;
        }
        BinaryViewArray { values }
    }
}

/// A column of strings.
pub type Utf8Chunked = ChunkedArray<String>;

/// A column of byte strings.
pub type BinaryChunked = ChunkedArray<Vec<u8>>;

impl<'a> FromNestedIterator<Option<&'a str>> for ChunkedArray<String> {
    open spec fn holds(self, items: Seq<Option<&'a str>>) -> bool {
        &&& self.name@ == Seq::<char>::empty()
        &&& self.chunks@.len() == 1
        &&& (Utf8ViewArray { values: self.chunks@[0] }).holds(items)
    }

    open spec fn has_capacity(capacity: usize) -> bool {
        capacity * vstd::layout::size_of::<Option<&'a str>>() <= isize::MAX
    }

    fn from_iter_nested(iter: Vec<Vec<Option<&'a str>>>, capacity: usize) -> (collected: Self) {
        let arr: Utf8ViewArray = iter.collect_nested(capacity);
        let mut chunks: Vec<Vec<Option<String>>> = Vec::new();
        chunks.push(arr.values);
        ChunkedArray { name: String::new(), chunks }
    }
}

impl<'a> FromNestedIterator<Option<&'a [u8]>> for ChunkedArray<Vec<u8>> {
    open spec fn holds(self, items: Seq<Option<&'a [u8]>>) -> bool {
        &&& self.name@ == Seq::<char>::empty()
        &&& self.chunks@.len() == 1
        &&& (BinaryViewArray { values: self.chunks@[0] }).holds(items)
    }

    open spec fn has_capacity(capacity: usize) -> bool {
        capacity * vstd::layout::size_of::<Option<&'a [u8]>>() <= isize::MAX
    }

    fn from_iter_nested(iter: Vec<Vec<Option<&'a [u8]>>>, capacity: usize) -> (collected: Self) {
        let arr: BinaryViewArray = iter.collect_nested(capacity);
        let mut chunks: Vec<Vec<Option<Vec<u8>>>> = Vec::new();
        chunks.push(arr.values);
        ChunkedArray { name: String::new(), chunks }
    }
}

/// Every item is collected, in its place: item `i` of an inner sequence comes `i`
/// places after all the items of the inner sequences before it.
pub proof fn law_flattening_keeps_every_item<A>(nested: Seq<Vec<A>>, inner: int, i: int)
    requires
        0 <= inner < nested.len(),
        0 <= i < nested[inner]@.len(),
    ensures
        flattened(nested)[flattened(nested.take(inner)).len() + i] == nested[inner]@[i],
        flattened(nested.take(inner)).len() + i < flattened(nested).len(),
    decreases nested.len(),
{
    if inner == nested.len() - 1 {
        assert(nested.take(inner) =~= nested.drop_last());
    } else {
        law_flattening_keeps_every_item(nested.drop_last(), inner, i);
        assert(nested.drop_last().take(inner) =~= nested.take(inner));
    }
}

/// How many items the inner sequences have in all.
pub open spec fn number_of_items<A>(nested: Seq<Vec<A>>) -> nat
    decreases nested.len(),
{
    if nested.len() == 0 {
        0
    } else {
        number_of_items(nested.drop_last()) + nested.last()@.len()
    }
}

/// Nothing is collected twice: there are as many items as the inner sequences
/// have in all, and item `i` of an inner sequence comes right after those before
/// it.
pub proof fn law_each_item_is_collected_once<A>(nested: Seq<Vec<A>>, inner: int, i: int)
    requires
        0 <= inner < nested.len(),
        0 <= i < nested[inner]@.len(),
    ensures
        flattened(nested).len() == number_of_items(nested),
        flattened(nested)[number_of_items(nested.take(inner)) + i] == nested[inner]@[i],
        number_of_items(nested.take(inner)) + i < flattened(nested).len(),
{
    lemma_number_of_items(nested);
    lemma_number_of_items(nested.take(inner));
    law_flattening_keeps_every_item(nested, inner, i);
}

proof fn lemma_number_of_items<A>(nested: Seq<Vec<A>>)
    ensures
        flattened(nested).len() == number_of_items(nested),
    decreases nested.len(),
{
    if nested.len() > 0 {
        lemma_number_of_items(nested.drop_last());
    }
}

/// A vector collects the items of the inner sequences in their order.
pub proof fn law_vector_holds_the_items<A>(
    nested: Vec<Vec<A>>,
    capacity: usize,
    collected: Vec<A>,
    inner: int,
    i: int,
)
    requires
        call_ensures(
            <Vec<A> as FromNestedIterator<A>>::from_iter_nested,
            (nested, capacity),
            collected,
        ),
        0 <= inner < nested@.len(),
        0 <= i < nested@[inner]@.len(),
    ensures
        collected@.len() == number_of_items(nested@),
        collected@[number_of_items(nested@.take(inner)) + i] == nested@[inner]@[i],
{
    law_each_item_is_collected_once(nested@, inner, i);
}

/// A column collects the items in one chunk, nulls where they stand.
pub proof fn law_column_holds_the_items<T>(
    nested: Vec<Vec<Option<T>>>,
    capacity: usize,
    collected: ChunkedArray<T>,
    inner: int,
    i: int,
)
    requires
        call_ensures(
            <ChunkedArray<T> as FromNestedIterator<Option<T>>>::from_iter_nested,
            (nested, capacity),
            collected,
        ),
        0 <= inner < nested@.len(),
        0 <= i < nested@[inner]@.len(),
    ensures
        collected.name@.len() == 0,
        collected.chunks@.len() == 1,
        collected.chunks@[0]@.len() == number_of_items(nested@),
        collected.chunks@[0]@[number_of_items(nested@.take(inner)) + i] == nested@[inner]@[i],
{
    law_each_item_is_collected_once(nested@, inner, i);
}

/// A column without nulls collects the items in one chunk, none of them null.
pub proof fn law_column_without_nulls_holds_the_items<T>(
    nested: Vec<Vec<T>>,
    capacity: usize,
    collected: NoNull<ChunkedArray<T>>,
    inner: int,
    i: int,
)
    requires
        call_ensures(
            <NoNull<ChunkedArray<T>> as FromNestedIterator<T>>::from_iter_nested,
            (nested, capacity),
            collected,
        ),
        0 <= inner < nested@.len(),
        0 <= i < nested@[inner]@.len(),
    ensures
        collected.0.name@.len() == 0,
        collected.0.chunks@.len() == 1,
        collected.0.chunks@[0]@.len() == number_of_items(nested@),
        collected.0.chunks@[0]@[number_of_items(nested@.take(inner)) + i] == Some(
            nested@[inner]@[i],
        ),
{
    law_each_item_is_collected_once(nested@, inner, i);
}

/// A column of strings collects the items in one chunk, with the same characters,
/// and nulls where they stand.
pub proof fn law_column_holds_the_strings<'a>(
    nested: Vec<Vec<Option<&'a str>>>,
    capacity: usize,
    array: Utf8ViewArray,
    column: ChunkedArray<String>,
    inner: int,
    i: int,
)
    requires
        call_ensures(
            <Utf8ViewArray as FromNestedIterator<Option<&'a str>>>::from_iter_nested,
            (nested, capacity),
            array,
        ),
        call_ensures(
            <ChunkedArray<String> as FromNestedIterator<Option<&'a str>>>::from_iter_nested,
            (nested, capacity),
            column,
        ),
        0 <= inner < nested@.len(),
        0 <= i < nested@[inner]@.len(),
    ensures
        ({
            let item = nested@[inner]@[i];
            let place = number_of_items(nested@.take(inner)) + i;
            &&& array.values@.len() == number_of_items(nested@)
            &&& item is None <==> array.values@[place] is None
            &&& item is Some ==> (array.values@[place]->0)@ == (item->0)@
            &&& column.name@.len() == 0
            &&& column.chunks@.len() == 1
            &&& column.chunks@[0]@.len() == number_of_items(nested@)
            &&& item is None <==> column.chunks@[0]@[place] is None
            &&& item is Some ==> (column.chunks@[0]@[place]->0)@ == (item->0)@
        }),
{
    law_each_item_is_collected_once(nested@, inner, i);
    let place = number_of_items(nested@.take(inner)) + i;
    assert(characters(array.values@[place]) == match nested@[inner]@[i] {
        Some(item) => Some(item@),
        None => None,
    });
    assert(characters(column.chunks@[0]@[place]) == match nested@[inner]@[i] {
        Some(item) => Some(item@),
        None => None,
    });
}

/// A column of byte strings collects the items in one chunk, with the same bytes,
/// and nulls where they stand.
pub proof fn law_column_holds_the_byte_strings<'a>(
    nested: Vec<Vec<Option<&'a [u8]>>>,
    capacity: usize,
    array: BinaryViewArray,
    column: ChunkedArray<Vec<u8>>,
    inner: int,
    i: int,
)
    requires
        call_ensures(
            <BinaryViewArray as FromNestedIterator<Option<&'a [u8]>>>::from_iter_nested,
            (nested, capacity),
            array,
        ),
        call_ensures(
            <ChunkedArray<Vec<u8>> as FromNestedIterator<Option<&'a [u8]>>>::from_iter_nested,
            (nested, capacity),
            column,
        ),
        0 <= inner < nested@.len(),
        0 <= i < nested@[inner]@.len(),
    ensures
        ({
            let item = nested@[inner]@[i];
            let place = number_of_items(nested@.take(inner)) + i;
            &&& array.values@.len() == number_of_items(nested@)
            &&& item is None <==> array.values@[place] is None
            &&& item is Some ==> (array.values@[place]->0)@ == (item->0)@
            &&& column.name@.len() == 0
            &&& column.chunks@.len() == 1
            &&& column.chunks@[0]@.len() == number_of_items(nested@)
            &&& item is None <==> column.chunks@[0]@[place] is None
            &&& item is Some ==> (column.chunks@[0]@[place]->0)@ == (item->0)@
        }),
{
    law_each_item_is_collected_once(nested@, inner, i);
    let place = number_of_items(nested@.take(inner)) + i;
    assert(bytes(array.values@[place]) == match nested@[inner]@[i] {
        Some(item) => Some(item@),
        None => None,
    });
    assert(bytes(column.chunks@[0]@[place]) == match nested@[inner]@[i] {
        Some(item) => Some(item@),
        None => None,
    });
}

/// Collecting nested sequences is collecting them from their iterator: whichever
/// way, a vector holds the items.
pub proof fn law_nested_are_collected_either_way<A>(
    nested: Vec<Vec<A>>,
    capacity: usize,
    first: Vec<A>,
    second: Vec<A>,
)
    requires
        call_ensures(
            <Vec<Vec<A>> as CollectNested<A>>::collect_nested::<Vec<A>>,
            (nested, capacity),
            first,
        ),
        call_ensures(
            <Vec<A> as FromNestedIterator<A>>::from_iter_nested,
            (nested, capacity),
            second,
        ),
    ensures
        first@ == second@,
{
}

} // verus!
