//! The literal values a directive argument can take.

use vstd::prelude::*;

verus! {

/// A parsed argument literal: a boolean, an integer, a piece of text, or an
/// ordered list of further literals.
#[derive(Debug, PartialEq)]
pub enum ArgValue {
    Boolean(bool),
    Number(i64),
    Text(String),
    List(Vec<ArgValue>),
}

/// The mathematical value of an [`ArgValue`].
pub enum ArgModel {
    Boolean(bool),
    Number(int),
    Text(Seq<char>),
    List(Seq<ArgModel>),
}

impl View for ArgValue {
    type V = ArgModel;

    open spec fn view(&self) -> ArgModel
        decreases self,
    {
        match self {
            ArgValue::Boolean(b) => ArgModel::Boolean(*b),
            ArgValue::Number(n) => ArgModel::Number(*n as int),
            ArgValue::Text(s) => ArgModel::Text(s@),
            ArgValue::List(items) => ArgModel::List(list_model(items@)),
        }
    }
}

/// The sequence of mathematical values of a sequence of [`ArgValue`]s.
pub open spec fn list_model(items: Seq<ArgValue>) -> Seq<ArgModel>
    decreases items,
{
    if items.len() == 0 {
        Seq::empty()
    } else {
        seq![items[0]@] + list_model(items.drop_first())
    }
}

/// [`list_model`] keeps the length of the sequence it models.
pub proof fn lemma_list_model_len(items: Seq<ArgValue>)
    ensures
        list_model(items).len() == items.len(),
    decreases items.len(),
{
    if items.len() > 0 {
        lemma_list_model_len(items.drop_first());
        assert(list_model(items) == seq![items[0]@] + list_model(items.drop_first()));
    } else {
        assert(list_model(items) == Seq::<ArgModel>::empty());
    }
}

/// Appending one element extends the model by that element's value.
pub proof fn lemma_list_model_push(items: Seq<ArgValue>, x: ArgValue)
    ensures
        list_model(items.push(x)) == list_model(items).push(x@),
    decreases items.len(),
{
    if items.len() == 0 {
        assert(items.push(x).drop_first() =~= Seq::<ArgValue>::empty());
        assert(list_model(items.push(x)) == seq![x@] + list_model(items.push(x).drop_first()));
        assert(list_model(items) == Seq::<ArgModel>::empty());
        assert(list_model(items.push(x)) =~= list_model(items).push(x@));
    } else {
        assert(items.push(x).drop_first() =~= items.drop_first().push(x));
        lemma_list_model_push(items.drop_first(), x);
        assert(list_model(items.push(x)) == seq![items[0]@] + list_model(items.drop_first().push(x)));
        assert(list_model(items) == seq![items[0]@] + list_model(items.drop_first()));
        assert(list_model(items.push(x)) =~= list_model(items).push(x@));
    }
}

/// The mathematical value of an argument mapping held as a vector of
/// name / value pairs.
pub open spec fn args_model(pairs: Seq<(String, ArgValue)>) -> Seq<(Seq<char>, ArgModel)>
    decreases pairs,
{
    if pairs.len() == 0 {
        Seq::empty()
    } else {
        seq![(pairs[0].0@, pairs[0].1@)] + args_model(pairs.drop_first())
    }
}

/// [`args_model`] keeps the length of the mapping it models.
pub proof fn lemma_args_model_len(pairs: Seq<(String, ArgValue)>)
    ensures
        args_model(pairs).len() == pairs.len(),
    decreases pairs.len(),
{
    if pairs.len() > 0 {
        lemma_args_model_len(pairs.drop_first());
        assert(args_model(pairs) == seq![(pairs[0].0@, pairs[0].1@)] + args_model(pairs.drop_first()));
    } else {
        assert(args_model(pairs) == Seq::<(Seq<char>, ArgModel)>::empty());
    }
}

/// Indexing into [`args_model`] agrees with taking each pair's value.
pub proof fn lemma_args_model_index(pairs: Seq<(String, ArgValue)>, i: int)
    requires
        0 <= i < pairs.len(),
    ensures
        args_model(pairs)[i] == (pairs[i].0@, pairs[i].1@),
    decreases i,
{
    lemma_args_model_len(pairs);
    lemma_args_model_len(pairs.drop_first());
    assert(args_model(pairs) == seq![(pairs[0].0@, pairs[0].1@)] + args_model(pairs.drop_first()));
    if i > 0 {
        lemma_args_model_index(pairs.drop_first(), i - 1);
        assert(pairs.drop_first()[i - 1] == pairs[i]);
    }
}

/// Appending one pair extends the model by that pair's value.
pub proof fn lemma_args_model_push(pairs: Seq<(String, ArgValue)>, k: String, v: ArgValue)
    ensures
        args_model(pairs.push((k, v))) == args_model(pairs).push((k@, v@)),
    decreases pairs.len(),
{
    if pairs.len() == 0 {
        assert(pairs.push((k, v)).drop_first() =~= Seq::<(String, ArgValue)>::empty());
        assert(args_model(pairs.push((k, v))) == seq![(k@, v@)] + args_model(pairs.push((k, v)).drop_first()));
        assert(args_model(pairs) == Seq::<(Seq<char>, ArgModel)>::empty());
        assert(args_model(pairs.push((k, v))) =~= args_model(pairs).push((k@, v@)));
    } else {
        assert(pairs.push((k, v)).drop_first() =~= pairs.drop_first().push((k, v)));
        lemma_args_model_push(pairs.drop_first(), k, v);
        assert(args_model(pairs.push((k, v))) == seq![(pairs[0].0@, pairs[0].1@)] + args_model(pairs.drop_first().push((k, v))));
        assert(args_model(pairs) == seq![(pairs[0].0@, pairs[0].1@)] + args_model(pairs.drop_first()));
        assert(args_model(pairs.push((k, v))) =~= args_model(pairs).push((k@, v@)));
    }
}

/// The mathematical value of a borrowed-name argument list, in order.
pub open spec fn pairs_model(pairs: Seq<(&str, ArgValue)>) -> Seq<(Seq<char>, ArgModel)>
    decreases pairs,
{
    if pairs.len() == 0 {
        Seq::empty()
    } else {
        seq![(pairs[0].0@, pairs[0].1@)] + pairs_model(pairs.drop_first())
    }
}

/// [`pairs_model`] keeps the length of the list it models.
pub proof fn lemma_pairs_model_len(pairs: Seq<(&str, ArgValue)>)
    ensures
        pairs_model(pairs).len() == pairs.len(),
    decreases pairs.len(),
{
    if pairs.len() > 0 {
        lemma_pairs_model_len(pairs.drop_first());
        assert(pairs_model(pairs) == seq![(pairs[0].0@, pairs[0].1@)] + pairs_model(pairs.drop_first()));
    } else {
        assert(pairs_model(pairs) == Seq::<(Seq<char>, ArgModel)>::empty());
    }
}

/// Appending one pair extends the model by that pair's value.
pub proof fn lemma_pairs_model_push(pairs: Seq<(&str, ArgValue)>, k: &str, v: ArgValue)
    ensures
        pairs_model(pairs.push((k, v))) == pairs_model(pairs).push((k@, v@)),
    decreases pairs.len(),
{
    if pairs.len() == 0 {
        assert(pairs.push((k, v)).drop_first() =~= Seq::<(&str, ArgValue)>::empty());
        assert(pairs_model(pairs.push((k, v))) == seq![(k@, v@)] + pairs_model(pairs.push((k, v)).drop_first()));
        assert(pairs_model(pairs) == Seq::<(Seq<char>, ArgModel)>::empty());
        assert(pairs_model(pairs.push((k, v))) =~= pairs_model(pairs).push((k@, v@)));
    } else {
        assert(pairs.push((k, v)).drop_first() =~= pairs.drop_first().push((k, v)));
        lemma_pairs_model_push(pairs.drop_first(), k, v);
        assert(pairs_model(pairs.push((k, v))) == seq![(pairs[0].0@, pairs[0].1@)] + pairs_model(pairs.drop_first().push((k, v))));
        assert(pairs_model(pairs) == seq![(pairs[0].0@, pairs[0].1@)] + pairs_model(pairs.drop_first()));
        assert(pairs_model(pairs.push((k, v))) =~= pairs_model(pairs).push((k@, v@)));
    }
}

} // verus!
