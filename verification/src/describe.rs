//! The return type that the rule suggests, as text.
use crate::classify::{is_single_literal_primitive_return, single_literal_return};
use crate::matching::{same_type, types_match};
use crate::text::{byte_len, chars_of, lemma_byte_len_concat, occurs, text_contains, text_len};
use crate::types::{ids_in_range, Literal, TypeData, TypeGraph, TypeId};
use crate::union::{covers_any, covers_some};
use crate::widening::{is_nonunion_wider, nonunion_wider};
use vstd::prelude::*;

verus! {

/// Upper bound on a suggestion, in bytes. Longer unions fall back to the
/// generic diagnostic note.
pub const MAX_DESCRIPTION_LENGTH: usize = 80;

/// Separator rendered between union members in the suggestion note.
pub const SEPARATOR: &'static str = " | ";

/// The source text of a string, number or boolean literal.
pub open spec fn literal_text(literal: Literal) -> Option<Seq<char>> {
    match literal {
        Literal::String(value) => Some("\""@ + value@ + "\""@),
        Literal::Number(value) => Some(value@),
        Literal::Boolean(value) => Some(
            if value {
                "true"@
            } else {
                "false"@
            },
        ),
        _ => None,
    }
}

/// The source text of a primitive type, or of a string, number or boolean literal.
pub open spec fn variant_text(graph: &TypeGraph, ty: TypeId) -> Option<Seq<char>> {
    match graph.data_of(ty) {
        TypeData::String => Some("string"@),
        TypeData::Number => Some("number"@),
        TypeData::BigInt => Some("bigint"@),
        TypeData::Boolean => Some("boolean"@),
        TypeData::Literal(literal) => literal_text(literal),
        _ => None,
    }
}

/// What is written for a type or literal: nothing where it has no text.
pub open spec fn written(text: Option<Seq<char>>) -> Seq<char> {
    match text {
        Some(found) => found,
        None => Seq::empty(),
    }
}

/// Texts one after the other, with separators between them.
pub open spec fn joined(texts: Seq<Seq<char>>) -> Seq<char>
    decreases texts.len(),
{
    if texts.len() == 0 {
        Seq::empty()
    } else if texts.len() == 1 {
        texts[0]
    } else {
        joined(texts.drop_last()) + SEPARATOR@ + texts.last()
    }
}

/// A text that holds none of the marks of an abridged or internal type.
pub open spec fn clean_text(text: Seq<char>) -> bool {
    &&& !occurs("..."@, text)
    &&& !occurs("__internal"@, text)
    &&& !occurs("typeof import("@, text)
}

/// A literal whose content may be shown.
pub open spec fn clean_literal(literal: Literal) -> bool {
    match literal {
        Literal::String(value) => clean_text(value@),
        Literal::Number(value) => clean_text(value@),
        _ => true,
    }
}

/// The texts of the literals among the first `count` returned types.
pub open spec fn inferred_texts(
    graph: &TypeGraph,
    returned: Seq<TypeId>,
    count: nat,
) -> Seq<Seq<char>>
    decreases count,
{
    if count == 0 {
        Seq::empty()
    } else {
        let before = inferred_texts(graph, returned, (count - 1) as nat);
        match graph.data_of(returned[count - 1]) {
            TypeData::Literal(literal) => before.push(written(literal_text(literal))),
            _ => before,
        }
    }
}

/// The union of the returned literals, such as `"loading" | "idle"`.
pub open spec fn inferred_text(graph: &TypeGraph, returned: Seq<TypeId>) -> Seq<char> {
    joined(inferred_texts(graph, returned, returned.len()))
}

/// A literal that has a text and may be shown.
pub open spec fn showable_literal(graph: &TypeGraph, ty: TypeId) -> bool {
    match graph.data_of(ty) {
        TypeData::Literal(literal) => clean_literal(literal) && literal_text(literal) is Some,
        _ => false,
    }
}

/// The returned literals can be suggested as the return type.
pub open spec fn inferred_renderable(graph: &TypeGraph, returned: Seq<TypeId>) -> bool {
    &&& returned.len() > 0
    &&& forall|i: int|
        0 <= i < returned.len() ==> showable_literal(graph, #[trigger] returned[i])
    &&& byte_len(inferred_text(graph, returned)) <= MAX_DESCRIPTION_LENGTH
}

/// Those of the first `count` variants that cover some returned type.
pub open spec fn covered_variants(
    graph: &TypeGraph,
    variants: Seq<TypeId>,
    returned: Seq<TypeId>,
    count: nat,
) -> Seq<TypeId>
    decreases count,
{
    if count == 0 {
        Seq::empty()
    } else {
        let before = covered_variants(graph, variants, returned, (count - 1) as nat);
        if covers_some(graph, variants[count - 1], returned) {
            before.push(variants[count - 1])
        } else {
            before
        }
    }
}

/// The texts of types.
pub open spec fn variant_texts(graph: &TypeGraph, variants: Seq<TypeId>) -> Seq<Seq<char>> {
    Seq::new(variants.len(), |i: int| written(variant_text(graph, variants[i])))
}

/// The variants of a union that some returned type needs.
pub open spec fn needed_variants(
    graph: &TypeGraph,
    annotation: TypeId,
    returned: Seq<TypeId>,
) -> Seq<TypeId> {
    let variants = graph.variants_of(annotation);
    covered_variants(graph, variants, returned, variants.len())
}

/// The annotated union, narrowed to the variants that are needed.
pub open spec fn narrowed_text(
    graph: &TypeGraph,
    annotation: TypeId,
    returned: Seq<TypeId>,
) -> Seq<char> {
    joined(variant_texts(graph, needed_variants(graph, annotation, returned)))
}

/// A variant that is wider than some returned type.
pub open spec fn widening_variant(
    graph: &TypeGraph,
    variant: TypeId,
    returned: Seq<TypeId>,
) -> bool {
    exists|i: int|
        0 <= i < returned.len() && !same_type(graph, variant, #[trigger] returned[i])
            && nonunion_wider(graph, variant, returned[i])
}

/// The narrowed union can be suggested as the return type: it leaves out some
/// variants but not all, every variant that stays has a text, and none of them
/// would be reported again.
pub open spec fn narrowed_renderable(
    graph: &TypeGraph,
    annotation: TypeId,
    returned: Seq<TypeId>,
) -> bool {
    let needed = needed_variants(graph, annotation, returned);
    &&& 0 < needed.len() < graph.variants_of(annotation).len()
    &&& forall|i: int|
        0 <= i < needed.len() ==> variant_text(graph, #[trigger] needed[i]) is Some
    &&& needed.len() == 1 && single_literal_return(graph, returned) || forall|i: int|
        0 <= i < needed.len() ==> !widening_variant(graph, #[trigger] needed[i], returned)
    &&& byte_len(narrowed_text(graph, annotation, returned)) <= MAX_DESCRIPTION_LENGTH
}

proof fn lemma_quotes()
    ensures
        "\"\""@ == "\""@ + "\""@,
        byte_len("\"\""@) == 2,
{
    reveal_strlit("\"\"");
    reveal_strlit("\"");
    assert("\"\""@ =~= "\""@ + "\""@);
    assert(vstd::utf8::is_ascii_chars("\"\""@));
    vstd::utf8::is_ascii_chars_encode_utf8("\"\""@);
}

/// The length of a joined text grows by that of the last text and a separator.
pub proof fn lemma_joined_push(texts: Seq<Seq<char>>, text: Seq<char>)
    ensures
        joined(texts.push(text)) == if texts.len() == 0 {
            text
        } else {
            joined(texts) + SEPARATOR@ + text
        },
        byte_len(joined(texts.push(text))) == if texts.len() == 0 {
            byte_len(text)
        } else {
            byte_len(joined(texts)) + byte_len(SEPARATOR@) + byte_len(text)
        },
{
    assert(texts.push(text).drop_last() =~= texts);
    assert(texts.push(text).last() == text);
    if texts.len() > 0 {
        lemma_byte_len_concat(joined(texts), SEPARATOR@);
        lemma_byte_len_concat(joined(texts) + SEPARATOR@, text);
    }
}

/// The length, in bytes, of the text of a string, number or boolean literal.
pub fn literal_display_len(literal: &Literal) -> (len: Option<usize>)
    requires
        literal.fits(),
    ensures
        match literal_text(*literal) {
            Some(text) => len is Some && len->0 == byte_len(text),
            None => len is None,
        },
{
    match literal {
        Literal::String(value) => {
            proof {
                lemma_quotes();
                lemma_byte_len_concat("\""@, value@);
                lemma_byte_len_concat("\""@ + value@, "\""@);
                lemma_byte_len_concat("\""@, "\""@);
            }
            Some(text_len(value.as_str()) + text_len("\"\""))
        },
        Literal::Number(value) => Some(text_len(value.as_str())),
        Literal::Boolean(value) => Some(
            if *value {
                text_len("true")
            } else {
                text_len("false")
            },
        ),
        _ => None,
    }
}

/// Rejects literals whose text contains `...`, `__internal`, or `typeof import(`.
pub fn literal_content_ok(literal: &Literal) -> (ok: bool)
    ensures
        ok == clean_literal(*literal),
{
    let text = match literal {
        Literal::String(value) => chars_of(value.as_str()),
        Literal::Number(value) => chars_of(value.as_str()),
        _ => {
            return true;
        },
    };
    !text_contains(&text, "...") && !text_contains(&text, "__internal") && !text_contains(
        &text,
        "typeof import(",
    )
}

/// Writes a string, number or boolean literal; writes nothing for other kinds.
pub fn write_literal(out: &mut String, literal: &Literal)
    ensures
        final(out)@ == old(out)@ + written(literal_text(*literal)),
{
    match literal {
        Literal::String(value) => {
            let ghost before = out@;
            out.append("\"");
            out.append(value.as_str());
            out.append("\"");
            assert(out@ =~= before + ("\""@ + value@ + "\""@));
        },
        Literal::Number(value) => {
            out.append(value.as_str());
        },
        Literal::Boolean(value) => {
            if *value {
                out.append("true");
            } else {
                out.append("false");
            }
        },
        _ => {
            assert(out@ =~= out@ + Seq::<char>::empty());
        },
    }
}

/// The length, in bytes, of the text of a primitive keyword or literal.
pub fn variant_display_len(graph: &TypeGraph, variant: TypeId) -> (len: Option<usize>)
    requires
        graph.well_formed(),
        variant < graph.size(),
    ensures
        match variant_text(graph, variant) {
            Some(text) => len is Some && len->0 == byte_len(text),
            None => len is None,
        },
{
    assert(graph.types@[variant as int].well_formed(graph.size(), graph.scopes@.len()));
    match graph.data(variant) {
        TypeData::String => Some(text_len("string")),
        TypeData::Number => Some(text_len("number")),
        TypeData::BigInt => Some(text_len("bigint")),
        TypeData::Boolean => Some(text_len("boolean")),
        TypeData::Literal(literal) => literal_display_len(literal),
        _ => None,
    }
}

/// Writes a primitive keyword or literal; writes nothing for other kinds.
pub fn write_variant(graph: &TypeGraph, out: &mut String, variant: TypeId)
    requires
        variant < graph.size(),
    ensures
        final(out)@ == old(out)@ + written(variant_text(graph, variant)),
{
    match graph.data(variant) {
        TypeData::String => out.append("string"),
        TypeData::Number => out.append("number"),
        TypeData::Boolean => out.append("boolean"),
        TypeData::BigInt => out.append("bigint"),
        TypeData::Literal(literal) => write_literal(out, literal),
        _ => {
            assert(out@ =~= out@ + Seq::<char>::empty());
        },
    }
}

/// `true` when every returned type is a displayable literal with clean content
/// and the joined output fits within [`MAX_DESCRIPTION_LENGTH`].
pub fn can_render_inferred(graph: &TypeGraph, returned: &Vec<TypeId>) -> (renderable: bool)
    requires
        graph.well_formed(),
        ids_in_range(returned@, graph.size()),
    ensures
        renderable == inferred_renderable(graph, returned@),
{
    let mut total_len: usize = 0;
    let mut i: usize = 0;
    while i < returned.len()
        invariant
            graph.well_formed(),
            ids_in_range(returned@, graph.size()),
            i <= returned@.len(),
            forall|j: int| 0 <= j < i ==> showable_literal(graph, #[trigger] returned@[j]),
            inferred_texts(graph, returned@, i as nat).len() == i,
            ({
                let len = byte_len(joined(inferred_texts(graph, returned@, i as nat)));
                total_len == if len <= usize::MAX {
                    len as int
                } else {
                    usize::MAX as int
                }
            }),
        decreases returned@.len() - i,
    {
        let ty = returned[i];
        assert(graph.types@[ty as int].well_formed(graph.size(), graph.scopes@.len()));
        let literal = match graph.data(ty) {
            TypeData::Literal(literal) => literal,
            _ => {
                assert(!showable_literal(graph, returned@[i as int]));
                return false;
            },
        };
        if !literal_content_ok(literal) {
            assert(!showable_literal(graph, returned@[i as int]));
            return false;
        }
        let literal_len = match literal_display_len(literal) {
            Some(len) => len,
            None => {
                assert(!showable_literal(graph, returned@[i as int]));
                return false;
            },
        };
        proof {
            lemma_joined_push(
                inferred_texts(graph, returned@, i as nat),
                written(literal_text(*literal)),
            );
        }
        if i > 0 {
            total_len = total_len.saturating_add(text_len(SEPARATOR));
        }
        total_len = total_len.saturating_add(literal_len);
        i = i + 1;
    }
    returned.len() > 0 && total_len <= MAX_DESCRIPTION_LENGTH
}

/// Writes an inferred description like `"loading" | "idle"`.
pub fn write_inferred(graph: &TypeGraph, out: &mut String, returned: &Vec<TypeId>)
    requires
        ids_in_range(returned@, graph.size()),
    ensures
        final(out)@ == old(out)@ + inferred_text(graph, returned@),
{
    let ghost before = out@;
    let mut first = true;
    let mut i: usize = 0;
    assert(out@ =~= before + joined(inferred_texts(graph, returned@, 0)));
    while i < returned.len()
        invariant
            ids_in_range(returned@, graph.size()),
            before == old(out)@,
            i <= returned@.len(),
            first == (inferred_texts(graph, returned@, i as nat).len() == 0),
            out@ == before + joined(inferred_texts(graph, returned@, i as nat)),
        decreases returned@.len() - i,
    {
        if let TypeData::Literal(literal) = graph.data(returned[i]) {
            let ghost texts = inferred_texts(graph, returned@, i as nat);
            let ghost text = written(literal_text(*literal));
            if !first {
                out.append(SEPARATOR);
            }
            write_literal(out, literal);
            first = false;
            proof {
                lemma_joined_push(texts, text);
                assert(out@ =~= before + joined(texts.push(text)));
            }
        }
        i = i + 1;
    }
}

/// Whether a variant is wider than some returned type.
fn is_widening_variant(graph: &TypeGraph, variant: TypeId, returned: &Vec<TypeId>) -> (found: bool)
    requires
        graph.well_formed(),
        variant < graph.size(),
        ids_in_range(returned@, graph.size()),
    ensures
        found == widening_variant(graph, variant, returned@),
{
    let mut i: usize = 0;
    while i < returned.len()
        invariant
            graph.well_formed(),
            variant < graph.size(),
            ids_in_range(returned@, graph.size()),
            i <= returned@.len(),
            forall|j: int|
                0 <= j < i ==> same_type(graph, variant, #[trigger] returned@[j])
                    || !nonunion_wider(graph, variant, returned@[j]),
        decreases returned@.len() - i,
    {
        if !types_match(graph, variant, returned[i]) && is_nonunion_wider(
            graph,
            variant,
            returned[i],
        ) {
            assert(!same_type(graph, variant, returned@[i as int]));
            return true;
        }
        i = i + 1;
    }
    false
}

proof fn lemma_variant_texts_push(graph: &TypeGraph, variants: Seq<TypeId>, variant: TypeId)
    ensures
        variant_texts(graph, variants.push(variant)) == variant_texts(graph, variants).push(
            written(variant_text(graph, variant)),
        ),
{
    assert(variant_texts(graph, variants.push(variant)) =~= variant_texts(graph, variants).push(
        written(variant_text(graph, variant)),
    ));
}

/// Returns `true` when the annotation's union can be safely narrowed to only
/// its covered variants within [`MAX_DESCRIPTION_LENGTH`].
pub fn can_render_narrowed(graph: &TypeGraph, annotation: TypeId, returned: &Vec<TypeId>) -> (
    renderable: bool)
    requires
        graph.well_formed(),
        annotation < graph.size(),
        ids_in_range(returned@, graph.size()),
    ensures
        renderable == narrowed_renderable(graph, annotation, returned@),
{
    let variants = graph.flattened_union_variants(annotation);
    let mut covered: usize = 0;
    let mut all_renderable = true;
    let mut has_widening = false;
    let mut render_len: usize = 0;
    let mut i: usize = 0;
    while i < variants.len()
        invariant
            graph.well_formed(),
            ids_in_range(variants@, graph.size()),
            ids_in_range(returned@, graph.size()),
            i <= variants@.len(),
            ({
                let needed = covered_variants(graph, variants@, returned@, i as nat);
                let len = byte_len(joined(variant_texts(graph, needed)));
                &&& covered == needed.len()
                &&& covered <= i
                &&& all_renderable <==> forall|j: int|
                    0 <= j < needed.len() ==> variant_text(graph, #[trigger] needed[j]) is Some
                &&& has_widening <==> exists|j: int|
                    0 <= j < needed.len() && widening_variant(
                        graph,
                        #[trigger] needed[j],
                        returned@,
                    )
                &&& all_renderable ==> render_len == if len <= usize::MAX {
                    len as int
                } else {
                    usize::MAX as int
                }
            }),
        decreases variants@.len() - i,
    {
        let variant = variants[i];
        if covers_any(graph, variant, returned) {
            let ghost needed = covered_variants(graph, variants@, returned@, i as nat);
            let ghost more = covered_variants(graph, variants@, returned@, (i + 1) as nat);
            proof {
                assert(more == needed.push(variant));
                assert forall|j: int| 0 <= j < needed.len() implies more[j] == needed[j] by {}
                assert(more[needed.len() as int] == variant);
                lemma_variant_texts_push(graph, needed, variant);
                lemma_joined_push(
                    variant_texts(graph, needed),
                    written(variant_text(graph, variant)),
                );
            }
            let widening = is_widening_variant(graph, variant, returned);
            proof {
                if has_widening {
                    let j = choose|j: int|
                        0 <= j < needed.len() && widening_variant(
                            graph,
                            #[trigger] needed[j],
                            returned@,
                        );
                    assert(widening_variant(graph, more[j], returned@));
                }
                if widening {
                    assert(widening_variant(graph, more[needed.len() as int], returned@));
                }
            }
            has_widening = has_widening || widening;
            match variant_display_len(graph, variant) {
                Some(len) => {
                    if covered > 0 {
                        render_len = render_len.saturating_add(text_len(SEPARATOR));
                    }
                    render_len = render_len.saturating_add(len);
                },
                None => {
                    assert(variant_text(graph, more[needed.len() as int]) is None);
                    all_renderable = false;
                },
            }
            proof {
                if all_renderable {
                    assert forall|j: int| 0 <= j < more.len() implies variant_text(
                        graph,
                        #[trigger] more[j],
                    ) is Some by {
                        if j < needed.len() {
                            assert(variant_text(graph, needed[j]) is Some);
                        }
                    }
                }
            }
            covered = covered + 1;
        }
        i = i + 1;
    }
    if covered == 0 || covered == variants.len() || !all_renderable {
        return false;
    }
    // A widening variant would keep the narrowed annotation misleading, unless
    // it stands for a single literal, which is not reported.
    let single_literal_bailout = covered == 1 && is_single_literal_primitive_return(
        graph,
        returned,
    );
    if has_widening && !single_literal_bailout {
        return false;
    }
    render_len <= MAX_DESCRIPTION_LENGTH
}

/// Writes narrowed annotation variants (only those covered by the returned types).
pub fn write_narrowed(
    graph: &TypeGraph,
    out: &mut String,
    annotation: TypeId,
    returned: &Vec<TypeId>,
)
    requires
        graph.well_formed(),
        annotation < graph.size(),
        ids_in_range(returned@, graph.size()),
    ensures
        final(out)@ == old(out)@ + narrowed_text(graph, annotation, returned@),
{
    let ghost before = out@;
    let variants = graph.flattened_union_variants(annotation);
    let mut first = true;
    let mut i: usize = 0;
    proof {
        let none = variant_texts(graph, covered_variants(graph, variants@, returned@, 0));
        assert(none.len() == 0);
        assert(out@ =~= before + joined(none));
    }
    while i < variants.len()
        invariant
            graph.well_formed(),
            ids_in_range(variants@, graph.size()),
            ids_in_range(returned@, graph.size()),
            before == old(out)@,
            i <= variants@.len(),
            first == (covered_variants(graph, variants@, returned@, i as nat).len() == 0),
            out@ == before + joined(
                variant_texts(graph, covered_variants(graph, variants@, returned@, i as nat)),
            ),
        decreases variants@.len() - i,
    {
        if covers_any(graph, variants[i], returned) {
            let ghost needed = covered_variants(graph, variants@, returned@, i as nat);
            let ghost variant = variants@[i as int];
            if !first {
                out.append(SEPARATOR);
            }
            write_variant(graph, out, variants[i]);
            first = false;
            proof {
                lemma_variant_texts_push(graph, needed, variant);
                lemma_joined_push(
                    variant_texts(graph, needed),
                    written(variant_text(graph, variant)),
                );
                assert(out@ =~= before + joined(variant_texts(graph, needed.push(variant))));
            }
        }
        i = i + 1;
    }
}

} // verus!
