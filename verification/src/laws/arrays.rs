//! Inputs, their sources, and the arrays behind them.

use vstd::prelude::*;

use crate::document::{first_referenced, source_step, source_within, DocumentView, Malformed, SourceStep};
use crate::element::ElementView;
use crate::laws::source::law_only_circles_are_malformed;
use crate::number::number_list;
use crate::traversal::content_words;

verus! {

/// An input leads to nothing where it has no `source` attribute, or one that
/// refers to no child of the parent.
pub proof fn law_input_without_target(doc: DocumentView, parent: ElementView, input: ElementView)
    requires
        input.attribute("source"@) is None || first_referenced(
            parent.children,
            input.attribute("source"@)->0,
        ) is None,
    ensures
        doc.input_source(parent, input) matches Ok(None),
{
}

/// An input that refers to a child of the parent leads to it where it is a
/// `source`. Otherwise it leads to where the first `input` of that child leads,
/// and to nothing where it has none.
pub proof fn law_input_with_target(
    doc: DocumentView,
    parent: ElementView,
    input: ElementView,
    reference: Seq<char>,
    target: ElementView,
)
    requires
        input.attribute("source"@) == Some(reference),
        first_referenced(parent.children, reference) == Some(target),
    ensures
        target.name == "source"@ ==> doc.input_source(parent, input) == Ok::<_, Malformed>(Some(target)),
        target.name != "source"@ && target.element("input"@, doc.root.ns) is None
            ==> doc.input_source(parent, input) matches Ok(None),
        target.name != "source"@ ==> (target.element("input"@, doc.root.ns) matches Some(next)
            ==> doc.input_source(parent, input) == doc.input_source(parent, next)),
{
    let ns = doc.root.ns;
    let n = parent.children.len();
    if target.name != "source"@ {
        match target.element("input"@, ns) {
            Some(next) => {
                assert(source_step(parent, ns, input) == SourceStep::Input(next));
                law_only_circles_are_malformed(doc, parent, input, n + 1);
                assert(source_within(parent, ns, input, n + 1) == source_within(parent, ns, next, n));
                if doc.input_source(parent, input) is Err {
                    assert(doc.input_source(parent, input)->Err_0 == Malformed {  });
                    assert(doc.input_source(parent, next)->Err_0 == Malformed {  });
                }
            },
            None => {},
        }
    }
}

/// The words behind an input are the content of the `float_array` of its source,
/// or of its `Name_array` where it has none.
pub proof fn law_words_behind_an_input(doc: DocumentView, parent: ElementView, input: ElementView)
    ensures
        doc.input_source(parent, input) is Err ==> doc.array_for_input(parent, input) is Err,
        doc.input_source(parent, input) matches Ok(None) ==> doc.array_for_input(
            parent,
            input,
        ) matches Ok(None),
        doc.input_source(parent, input) matches Ok(Some(source)) ==> {
            let floats = source.element("float_array"@, doc.root.ns);
            let names = source.element("Name_array"@, doc.root.ns);
            &&& floats is Some ==> doc.array_for_input(parent, input) == Ok::<_, Malformed>(
                content_words(floats->0),
            )
            &&& floats is None && names is Some ==> doc.array_for_input(parent, input) == Ok::<
                _,
                Malformed,
            >(content_words(names->0))
            &&& floats is None && names is None ==> doc.array_for_input(parent, input) matches Ok(None)
        },
{
}

/// The numbers behind an input are those that the words behind it write.
pub proof fn law_numbers_behind_an_input(doc: DocumentView, parent: ElementView, input: ElementView)
    ensures
        doc.array_for_input(parent, input) is Err ==> doc.numbers_for_input(parent, input) is Err,
        doc.array_for_input(parent, input) matches Ok(None) ==> doc.numbers_for_input(
            parent,
            input,
        ) matches Ok(None),
        doc.array_for_input(parent, input) matches Ok(Some(list)) ==> doc.numbers_for_input(
            parent,
            input,
        ) == Ok::<_, Malformed>(number_list(doc.numerals, list)),
{
}

/// What is behind a semantic is what is behind the input that has it; where no
/// input has it there is nothing, or no numbers where they may be left out.
pub proof fn law_behind_a_semantic(
    doc: DocumentView,
    parent: ElementView,
    holder: ElementView,
    semantic: Seq<char>,
)
    ensures
        doc.input(holder, semantic) matches Some(input) ==> {
            &&& doc.words_behind(parent, holder, semantic) == doc.array_for_input(parent, input)
            &&& doc.numbers_behind(parent, holder, semantic) == doc.numbers_for_input(parent, input)
            &&& doc.numbers_or_none(parent, holder, semantic) == doc.numbers_for_input(parent, input)
        },
        doc.input(holder, semantic) is None ==> {
            &&& doc.words_behind(parent, holder, semantic) matches Ok(None)
            &&& doc.numbers_behind(parent, holder, semantic) matches Ok(None)
            &&& doc.numbers_or_none(parent, holder, semantic) matches Ok(Some(list)) && list.len() == 0
        },
{
}

} // verus!
