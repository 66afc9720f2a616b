//! What holds of the texts that the rule writes.
use crate::classify::single_literal_return;
use crate::describe::{
    clean_literal, clean_text, covered_variants, inferred_renderable, inferred_text,
    inferred_texts, joined, literal_text, narrowed_renderable, narrowed_text, needed_variants,
    showable_literal, variant_text, variant_texts, widening_variant, written,
};
use crate::matching::same_type;
use crate::rule::{advice, DescriptionKind, RuleState};
use crate::text::{byte_len, occurs, stands_at};
use crate::type_laws::admits;
use crate::types::{Literal, TypeData, TypeGraph, TypeId};
use crate::union::covers_some;
use crate::widening::nonunion_wider;
use vstd::prelude::*;

verus! {

/// A pattern stands in a text exactly when the text is the pattern with something,
/// or nothing, before and after it.
pub proof fn law_patterns_stand_in_texts(pattern: Seq<char>, text: Seq<char>)
    ensures
        occurs(pattern, text) <==> exists|before: Seq<char>, after: Seq<char>|
            text == #[trigger] (before + pattern + after),
{
    if occurs(pattern, text) {
        let at = choose|at: int| stands_at(pattern, text, at);
        let before = text.take(at);
        let after = text.skip(at + pattern.len());
        assert(text =~= before + text.subrange(at, at + pattern.len()) + after);
        assert(text == before + pattern + after);
    }
    if exists|before: Seq<char>, after: Seq<char>| text == #[trigger] (before + pattern + after) {
        let (before, after) = choose|before: Seq<char>, after: Seq<char>|
            text == #[trigger] (before + pattern + after);
        let at = before.len() as int;
        assert(text.subrange(at, at + pattern.len()) =~= pattern);
        assert(stands_at(pattern, text, at));
    }
}

/// The length of a text is that of its encoding, and adds up.
pub proof fn law_lengths_add_up(first: Seq<char>, second: Seq<char>)
    ensures
        byte_len(first) == vstd::utf8::encode_utf8(first).len(),
        byte_len(first + second) == byte_len(first) + byte_len(second),
        first.len() <= byte_len(first),
{
    crate::text::lemma_byte_len_concat(first, second);
    crate::text::lemma_chars_within_bytes(first);
}

/// Strings are written in quotes, numbers as they are, and booleans as `true` and
/// `false`. Other literals have no text.
pub proof fn law_texts_of_literals(literal: Literal)
    ensures
        literal_text(literal) == match literal {
            Literal::String(value) => Some(seq!['"'] + value@ + seq!['"']),
            Literal::Number(value) => Some(value@),
            Literal::Boolean(true) => Some(seq!['t', 'r', 'u', 'e']),
            Literal::Boolean(false) => Some(seq!['f', 'a', 'l', 's', 'e']),
            _ => None,
        },
{
    reveal_strlit("\"");
    reveal_strlit("true");
    reveal_strlit("false");
    assert("\""@ =~= seq!['"']);
    assert("true"@ =~= seq!['t', 'r', 'u', 'e']);
    assert("false"@ =~= seq!['f', 'a', 'l', 's', 'e']);
}

/// Primitive types are written by their keywords, and literals as such. Other
/// types have no text, and nothing is written for them.
pub proof fn law_texts_of_types(graph: &TypeGraph, ty: TypeId)
    ensures
        variant_text(graph, ty) == match graph.data_of(ty) {
            TypeData::String => Some(seq!['s', 't', 'r', 'i', 'n', 'g']),
            TypeData::Number => Some(seq!['n', 'u', 'm', 'b', 'e', 'r']),
            TypeData::Boolean => Some(seq!['b', 'o', 'o', 'l', 'e', 'a', 'n']),
            TypeData::BigInt => Some(seq!['b', 'i', 'g', 'i', 'n', 't']),
            TypeData::Literal(literal) => literal_text(literal),
            _ => None,
        },
        forall|text: Seq<char>| #[trigger] written(Some(text)) == text,
        written(None).len() == 0,
{
    reveal_strlit("string");
    reveal_strlit("number");
    reveal_strlit("boolean");
    reveal_strlit("bigint");
    assert("string"@ =~= seq!['s', 't', 'r', 'i', 'n', 'g']);
    assert("number"@ =~= seq!['n', 'u', 'm', 'b', 'e', 'r']);
    assert("boolean"@ =~= seq!['b', 'o', 'o', 'l', 'e', 'a', 'n']);
    assert("bigint"@ =~= seq!['b', 'i', 'g', 'i', 'n', 't']);
}

/// Joined texts have a bar between them: joining two lists joins what each of them
/// gives. A single text stands alone.
pub proof fn law_texts_are_joined_by_bars(
    first: Seq<Seq<char>>,
    second: Seq<Seq<char>>,
    text: Seq<char>,
)
    ensures
        joined(Seq::empty()).len() == 0,
        joined(seq![text]) == text,
        first.len() > 0 && second.len() > 0 ==> joined(first + second) == joined(first) + seq![
            ' ',
            '|',
            ' ',
        ] + joined(second),
    decreases second.len(),
{
    reveal_strlit(" | ");
    assert(" | "@ =~= seq![' ', '|', ' ']);
    if first.len() > 0 && second.len() > 0 {
        let rest = second.drop_last();
        assert((first + second).drop_last() =~= first + rest);
        assert((first + second).last() == second.last());
        if rest.len() > 0 {
            law_texts_are_joined_by_bars(first, rest, text);
            let bar = seq![' ', '|', ' '];
            assert(joined(first) + bar + joined(rest) + bar + second.last() =~= joined(first) + bar
                + (joined(rest) + bar + second.last()));
        } else {
            assert(first + rest =~= first);
            assert(second[0] == second.last());
        }
    }
}

/// A text may be shown exactly when it holds none of three marks, and a literal
/// exactly when its text may be, if it is a string or a number.
pub proof fn law_texts_that_may_be_shown(text: Seq<char>, literal: Literal)
    ensures
        clean_text(text) <==> !occurs(seq!['.', '.', '.'], text) && !occurs(
            seq!['_', '_', 'i', 'n', 't', 'e', 'r', 'n', 'a', 'l'],
            text,
        ) && !occurs(
            seq!['t', 'y', 'p', 'e', 'o', 'f', ' ', 'i', 'm', 'p', 'o', 'r', 't', '('],
            text,
        ),
        clean_literal(literal) <==> match literal {
            Literal::String(value) => clean_text(value@),
            Literal::Number(value) => clean_text(value@),
            _ => true,
        },
{
    reveal_strlit("...");
    reveal_strlit("__internal");
    reveal_strlit("typeof import(");
    assert("..."@ =~= seq!['.', '.', '.']);
    assert("__internal"@ =~= seq!['_', '_', 'i', 'n', 't', 'e', 'r', 'n', 'a', 'l']);
    assert("typeof import("@ =~= seq![
        't',
        'y',
        'p',
        'e',
        'o',
        'f',
        ' ',
        'i',
        'm',
        'p',
        'o',
        'r',
        't',
        '(',
    ]);
}

/// The text of a literal type, and nothing for other literals.
pub open spec fn text_of_literal(graph: &TypeGraph, ty: TypeId) -> Seq<char> {
    match graph.data_of(ty) {
        TypeData::Literal(literal) => match literal_text(literal) {
            Some(text) => text,
            None => Seq::empty(),
        },
        _ => Seq::empty(),
    }
}

proof fn lemma_inferred_texts(graph: &TypeGraph, returned: Seq<TypeId>, count: nat)
    requires
        count <= returned.len(),
    ensures
        inferred_texts(graph, returned, count) == returned.take(count as int).filter(
            |ty: TypeId| graph.data_of(ty) is Literal,
        ).map_values(|ty: TypeId| text_of_literal(graph, ty)),
    decreases count,
{
    reveal(Seq::filter);
    let literals = |ty: TypeId| graph.data_of(ty) is Literal;
    let text = |ty: TypeId| text_of_literal(graph, ty);
    if count > 0 {
        lemma_inferred_texts(graph, returned, (count - 1) as nat);
        let all = returned.take(count as int);
        assert(all.drop_last() =~= returned.take(count - 1));
        assert(all.last() == returned[count - 1]);
        let before = all.drop_last().filter(literals);
        assert(before.push(all.last()).map_values(text) =~= before.map_values(text).push(
            text(all.last()),
        ));
    } else {
        assert(returned.take(0).filter(literals).map_values(text) =~= Seq::<Seq<char>>::empty());
    }
}

/// The returned values are written as the texts of the returned literals, in the
/// order in which they are returned.
pub proof fn law_returned_values_are_written(graph: &TypeGraph, returned: Seq<TypeId>)
    ensures
        inferred_text(graph, returned) == joined(
            returned.filter(|ty: TypeId| graph.data_of(ty) is Literal).map_values(
                |ty: TypeId| text_of_literal(graph, ty),
            ),
        ),
{
    lemma_inferred_texts(graph, returned, returned.len());
    assert(returned.take(returned.len() as int) =~= returned);
}

/// The returned values can be suggested exactly when there are some, all of them
/// are strings, numbers or booleans that may be shown, and their text is no longer
/// than eighty bytes.
pub proof fn law_when_returned_values_are_suggested(graph: &TypeGraph, returned: Seq<TypeId>)
    ensures
        inferred_renderable(graph, returned) <==> returned.len() > 0 && (forall|i: int|
            0 <= i < returned.len() ==> (graph.data_of(#[trigger] returned[i])
                matches TypeData::Literal(literal) && (literal is String || literal is Number
                || literal is Boolean) && clean_literal(literal))) && byte_len(
            inferred_text(graph, returned),
        ) <= 80,
{
    assert forall|i: int| 0 <= i < returned.len() implies showable_literal(
        graph,
        #[trigger] returned[i],
    ) == (graph.data_of(returned[i]) matches TypeData::Literal(literal) && (literal is String
        || literal is Number || literal is Boolean) && clean_literal(literal)) by {}
    if inferred_renderable(graph, returned) {
        assert forall|i: int| 0 <= i < returned.len() implies (graph.data_of(
            #[trigger] returned[i],
        ) matches TypeData::Literal(literal) && (literal is String || literal is Number
            || literal is Boolean) && clean_literal(literal)) by {
            assert(showable_literal(graph, returned[i]));
        }
    }
}

/// The variant admits some of the types.
pub open spec fn admits_some(graph: &TypeGraph, variant: TypeId, types: Seq<TypeId>) -> bool {
    exists|k: int| 0 <= k < types.len() && admits(graph, variant, #[trigger] types[k])
}

proof fn lemma_admits_some(graph: &TypeGraph, variant: TypeId, types: Seq<TypeId>)
    ensures
        admits_some(graph, variant, types) == covers_some(graph, variant, types),
{
    if covers_some(graph, variant, types) {
        let k = choose|k: int|
            0 <= k < types.len() && crate::union::covers(graph, variant, #[trigger] types[k]);
        assert(admits(graph, variant, types[k]));
    }
    if admits_some(graph, variant, types) {
        let k = choose|k: int|
            0 <= k < types.len() && admits(graph, variant, #[trigger] types[k]);
        assert(crate::union::covers(graph, variant, types[k]));
    }
}

proof fn lemma_covered_variants(
    graph: &TypeGraph,
    variants: Seq<TypeId>,
    returned: Seq<TypeId>,
    count: nat,
)
    requires
        count <= variants.len(),
    ensures
        covered_variants(graph, variants, returned, count) == variants.take(count as int).filter(
            |variant: TypeId| admits_some(graph, variant, returned),
        ),
    decreases count,
{
    reveal(Seq::filter);
    if count > 0 {
        lemma_covered_variants(graph, variants, returned, (count - 1) as nat);
        let all = variants.take(count as int);
        assert(all.drop_last() =~= variants.take(count - 1));
        assert(all.last() == variants[count - 1]);
        lemma_admits_some(graph, variants[count - 1], returned);
    } else {
        assert(variants.take(0) =~= Seq::<TypeId>::empty());
    }
}

/// An annotation is narrowed to those of its variants that admit some returned
/// type, in their order, and written as the texts of these.
pub proof fn law_annotations_are_narrowed(
    graph: &TypeGraph,
    annotation: TypeId,
    returned: Seq<TypeId>,
)
    ensures
        needed_variants(graph, annotation, returned) == graph.variants_of(annotation).filter(
            |variant: TypeId| admits_some(graph, variant, returned),
        ),
        narrowed_text(graph, annotation, returned) == joined(
            needed_variants(graph, annotation, returned).map_values(
                |variant: TypeId| written(variant_text(graph, variant)),
            ),
        ),
{
    let variants = graph.variants_of(annotation);
    let needed = needed_variants(graph, annotation, returned);
    lemma_covered_variants(graph, variants, returned, variants.len());
    assert(variants.take(variants.len() as int) =~= variants);
    assert(variant_texts(graph, needed) =~= needed.map_values(
        |variant: TypeId| written(variant_text(graph, variant)),
    ));
}

/// The variant is wider than some of the types without being the same.
pub open spec fn widens(graph: &TypeGraph, variant: TypeId, types: Seq<TypeId>) -> bool {
    exists|k: int|
        0 <= k < types.len() && nonunion_wider(graph, variant, #[trigger] types[k]) && !same_type(
            graph,
            variant,
            types[k],
        )
}

/// A narrowed annotation can be suggested exactly when it leaves out some variants
/// but not all, each that stays has a text, none that stays is wider than a
/// returned type, unless it is the only one and stands for a single literal, and
/// its text is no longer than eighty bytes.
pub proof fn law_when_narrowed_annotations_are_suggested(
    graph: &TypeGraph,
    annotation: TypeId,
    returned: Seq<TypeId>,
)
    ensures
        ({
            let needed = needed_variants(graph, annotation, returned);
            narrowed_renderable(graph, annotation, returned) <==> {
                &&& needed.len() > 0
                &&& needed.len() < graph.variants_of(annotation).len()
                &&& forall|i: int|
                    0 <= i < needed.len() ==> variant_text(graph, #[trigger] needed[i]) is Some
                &&& (needed.len() == 1 && single_literal_return(graph, returned)) || (forall|i: int|
                    0 <= i < needed.len() ==> !widens(graph, #[trigger] needed[i], returned))
                &&& byte_len(narrowed_text(graph, annotation, returned)) <= 80
            }
        }),
{
    let needed = needed_variants(graph, annotation, returned);
    assert forall|i: int| 0 <= i < needed.len() implies widens(
        graph,
        #[trigger] needed[i],
        returned,
    ) == widening_variant(graph, needed[i], returned) by {
        lemma_widens(graph, needed[i], returned);
    }
}

proof fn lemma_widens(graph: &TypeGraph, variant: TypeId, types: Seq<TypeId>)
    ensures
        widens(graph, variant, types) == widening_variant(graph, variant, types),
{
    if widens(graph, variant, types) {
        let k = choose|k: int|
            0 <= k < types.len() && nonunion_wider(graph, variant, #[trigger] types[k])
                && !same_type(graph, variant, types[k]);
        assert(!same_type(graph, variant, types[k]));
    }
    if widening_variant(graph, variant, types) {
        let k = choose|k: int|
            0 <= k < types.len() && !same_type(graph, variant, #[trigger] types[k])
                && nonunion_wider(graph, variant, types[k]);
        assert(nonunion_wider(graph, variant, types[k]));
    }
}

/// A narrowed annotation is preferred as a suggestion, except where `as const` is
/// used, which is for the returned values alone. They come second elsewhere.
pub proof fn law_what_is_suggested(graph: &TypeGraph, state: RuleState)
    ensures
        ({
            let narrowed = narrowed_renderable(graph, state.effective_return_ty, state.returns@);
            let inferred = inferred_renderable(graph, state.returns@);
            &&& state.has_any_const_return && inferred ==> state.suggestion(graph) == Some(
                DescriptionKind::Inferred,
            )
            &&& state.has_any_const_return && !inferred ==> state.suggestion(graph) is None
            &&& !state.has_any_const_return && narrowed ==> state.suggestion(graph) == Some(
                DescriptionKind::Narrowed,
            )
            &&& !state.has_any_const_return && !narrowed && inferred ==> state.suggestion(graph)
                == Some(DescriptionKind::Inferred)
            &&& !narrowed && !inferred ==> state.suggestion(graph) is None
        }),
        state.suggestion(graph) == Some(DescriptionKind::Inferred) ==> state.suggestion_text(graph)
            == inferred_text(graph, state.returns@),
        state.suggestion(graph) == Some(DescriptionKind::Narrowed) ==> state.suggestion_text(graph)
            == narrowed_text(graph, state.effective_return_ty, state.returns@),
        state.suggestion(graph) is None ==> state.suggestion_text(graph).len() == 0,
{
}

/// The last note of a diagnostic names the suggestion if there is one, and is a
/// generic note otherwise.
pub proof fn law_the_last_note(graph: &TypeGraph, state: RuleState)
    ensures
        state.suggestion(graph) is Some ==> advice(graph, state) == "Consider using "@
            + state.suggestion_text(graph) + " as the return type."@,
        state.suggestion(graph) is None ==> advice(graph, state)
            == "Narrow the return type to match what the function actually returns."@,
{
}

} // verus!
