//! Reading one row of the wiki's table of alternate recipes, given the text
//! fragments of each of its cells.
use vstd::prelude::*;

verus! {

/// The text of one recipe row: name, product, (ingredient, amount) pairs and
/// rate, as they stand in the table.
pub struct RowText {
    pub name: String,
    pub product: String,
    pub input: Vec<(String, String)>,
    pub rate: String,
}

/// Why a row with cells could not be read.
#[derive(Clone, Copy, Debug, PartialEq, Eq, Structural)]
pub enum RowError {
    /// Fewer than four cells, or the name, product or rate cell holds no text.
    MissingCell,
    /// The ingredient cell ends with a name that has no amount.
    UnpairedIngredient,
}

/// The UTF-8 length of a fragment, as `str::len` gives it.
pub open spec fn byte_len(s: Seq<char>) -> usize {
    vstd::utf8::encode_utf8(s).len() as usize
}

/// The fragments of an ingredient cell that carry text: longer than one byte.
pub open spec fn content_fragments(frags: Seq<String>) -> Seq<String>
    decreases frags.len(),
{
    if frags.len() == 0 {
        Seq::empty()
    } else {
        let init = content_fragments(frags.drop_last());
        if byte_len(frags.last()@) > 1 {
            init.push(frags.last())
        } else {
            init
        }
    }
}

/// `pairs` reads `kept` two by two: a name, then its amount.
pub open spec fn reads_pairs(kept: Seq<String>, pairs: Seq<(String, String)>) -> bool {
    &&& kept.len() == 2 * pairs.len()
    &&& forall|i: int|
        0 <= i < pairs.len() ==> (#[trigger] pairs[i]).0@ == kept[2 * i]@ && pairs[i].1@ == kept[2 * i + 1]@
}

/// The fragments of an ingredient cell that carry text, in order.
fn kept_fragments(frags: &Vec<String>) -> (kept: Vec<String>)
    ensures
        kept@.len() == content_fragments(frags@).len(),
        forall|i: int| 0 <= i < kept@.len() ==> (#[trigger] kept@[i])@ == content_fragments(frags@)[i]@,
{
    let mut kept: Vec<String> = Vec::new();
    let mut i: usize = 0;
    while i < frags.len()
        invariant
            0 <= i <= frags@.len(),
            kept@.len() == content_fragments(frags@.take(i as int)).len(),
            forall|j: int| 0 <= j < kept@.len() ==> (#[trigger] kept@[j])@ == content_fragments(frags@.take(i as int))[j]@,
        decreases frags@.len() - i,
    {
        assert(frags@.take(i + 1).drop_last() =~= frags@.take(i as int));
        assert(frags@.take(i + 1).last() == frags@[i as int]);
        let ghost prev = content_fragments(frags@.take(i as int));
        let ghost next = content_fragments(frags@.take(i + 1));
        let n = frags[i].as_str().len();
        assert(n == byte_len(frags@[i as int]@));
        if n > 1 {
            assert(next == prev.push(frags@[i as int]));
            kept.push(frags[i].clone());
        } else {
            assert(next == prev);
        }
        i = i + 1;
    }
    assert(frags@.take(frags@.len() as int) =~= frags@);
    kept
}

/// Reads the ingredient cell: its text fragments two by two, a name then an
/// amount; `None` when a name is left without an amount.
pub fn ingredient_pairs(frags: &Vec<String>) -> (r: Option<Vec<(String, String)>>)
    ensures
        r is Some <==> content_fragments(frags@).len() % 2 == 0,
        r matches Some(pairs) ==> reads_pairs(content_fragments(frags@), pairs@),
{
    let kept = kept_fragments(frags);
    if kept.len() % 2 != 0 {
        return None;
    }
    let mut pairs: Vec<(String, String)> = Vec::new();
    let mut i: usize = 0;
    while i < kept.len() / 2
        invariant
            kept@.len() % 2 == 0,
            0 <= i <= kept@.len() / 2,
            pairs@.len() == i,
            forall|j: int| 0 <= j < i ==> (#[trigger] pairs@[j]).0@ == kept@[2 * j]@ && pairs@[j].1@ == kept@[2 * j + 1]@,
        decreases kept@.len() / 2 - i,
    {
        pairs.push((kept[2 * i].clone(), kept[2 * i + 1].clone()));
        i = i + 1;
    }
    Some(pairs)
}

/// Reads one row from the text fragments of its cells: a row without cells
/// (the header) gives `Ok(None)`; the name, product and rate are the first
/// fragment of the first, second and fourth cell; the ingredients are read
/// from the third.
pub fn read_row(cols: &Vec<Vec<String>>) -> (r: Result<Option<RowText>, RowError>)
    ensures
        cols@.len() == 0 ==> r == Ok::<Option<RowText>, RowError>(None),
        cols@.len() > 0 && (cols@.len() < 4 || cols@[0]@.len() == 0 || cols@[1]@.len() == 0
            || cols@[3]@.len() == 0) ==> r == Err::<Option<RowText>, RowError>(RowError::MissingCell),
        cols@.len() >= 4 && cols@[0]@.len() > 0 && cols@[1]@.len() > 0 && cols@[3]@.len() > 0 ==> {
            let kept = content_fragments(cols@[2]@);
            &&& (r is Err) <==> kept.len() % 2 != 0
            &&& r is Err ==> r == Err::<Option<RowText>, RowError>(RowError::UnpairedIngredient)
            &&& r matches Ok(Some(row)) ==> {
                &&& row.name@ == cols@[0]@[0]@
                &&& row.product@ == cols@[1]@[0]@
                &&& row.rate@ == cols@[3]@[0]@
                &&& reads_pairs(kept, row.input@)
            }
            &&& !(r matches Ok(None))
        },
{
    if cols.len() == 0 {
        return Ok(None);
    }
    if cols.len() < 4 || cols[0].len() == 0 || cols[1].len() == 0 || cols[3].len() == 0 {
        return Err(RowError::MissingCell);
    }
    match ingredient_pairs(&cols[2]) {
        None => Err(RowError::UnpairedIngredient),
        Some(input) => Ok(
            Some(
                RowText {
                    name: cols[0][0].clone(),
                    product: cols[1][0].clone(),
                    input,
                    rate: cols[3][0].clone(),
                },
            ),
        ),
    }
}

} // verus!
