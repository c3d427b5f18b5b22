//! Painting a path, component by component, in the colours that `LS_COLORS` assigns.

use lscolors::LsColors;
use std::path::Path;
use vstd::prelude::*;

verus! {

/// `lscolors::LsColors`: the colour rules of one `LS_COLORS` configuration. Carried
/// through; nothing is read from it here.
#[verifier::external_type_specification]
#[verifier::external_body]
pub struct ExLsColors(lscolors::LsColors);

/// `lscolors::Style`: the colour rule found for one path component. Carried through.
#[verifier::external_type_specification]
#[verifier::external_body]
pub struct ExPathStyle(lscolors::Style);

/// `nu_ansi_term::Style`: a style as the terminal is told of it. Carried through.
#[verifier::external_type_specification]
#[verifier::external_body]
pub struct ExAnsiStyle(nu_ansi_term::Style);

/// `lscolors::Style::to_nu_ansi_term_style`: the terminal style that stands for a colour
/// rule. Nothing is claimed of the style that comes back.
pub assume_specification[ lscolors::Style::to_nu_ansi_term_style ](
    style: &lscolors::Style,
) -> (ansi: nu_ansi_term::Style)
;

/// `nu_ansi_term::Style::default`: the style of text that no rule colours. Nothing is
/// claimed of the style that comes back.
pub assume_specification[ <nu_ansi_term::Style as core::default::Default>::default ]() -> (ansi:
    nu_ansi_term::Style)
;

/// The components into which `LsColors::style_for_path_components` splits a path, in
/// order, each with the separator that follows it: `foo/bar/test.md` falls into `foo/`,
/// `bar/` and `test.md`. The splitting is that of `std::path`, as it reads paths where
/// the library runs; it looks at the text of the path and at nothing else.
pub uninterp spec fn path_components(path: Seq<char>) -> Seq<Seq<char>>;

/// Whether `outer` is `inner` with something put before it and something after it.
pub open spec fn frames(inner: Seq<char>, outer: Seq<char>) -> bool {
    exists|on: Seq<char>, off: Seq<char>| outer == on + inner + off
}

/// Whether `painted` is `path` painted component by component: one piece for each
/// component, in order, and each piece is the text of its component between what
/// switches its colour on and what switches it off.
pub open spec fn paints(path: Seq<char>, painted: Seq<Seq<char>>) -> bool {
    &&& painted.len() == path_components(path).len()
    &&& forall|i: int|
        0 <= i < painted.len() ==> frames(path_components(path)[i], #[trigger] painted[i])
}

/// One component of a path, its separator included, with the colour rule found for it.
struct StyledComponent {
    text: String,
    style: Option<lscolors::Style>,
}

/// `LsColors::style_for_path_components`, with what it yields collected: `path` split
/// into its components and the colour rule of each. The texts of the components are
/// claimed to be [`path_components`] of the path. Nothing is claimed of the colour
/// rules: for them the file system is asked what kind of entry each component names.
#[verifier::external_body]
fn styled_components(colors: &LsColors, path: &str) -> (components: Vec<StyledComponent>)
    ensures
        components@.len() == path_components(path@).len(),
        forall|i: int|
            0 <= i < components@.len() ==> (#[trigger] components@[i]).text@ == path_components(
                path@,
            )[i],
{
    let mut components = Vec::new();
    for (text, style) in colors.style_for_path_components(Path::new(path)) {
        components.push(
            StyledComponent { text: text.to_string_lossy().into_owned(), style: style.copied() },
        );
    }
    components
}

/// `nu_ansi_term::Style::paint`, with what it returns written out as a string. The
/// string is claimed to be `text` between the escape sequence that switches `style` on
/// and the one that switches it off. Nothing is claimed of those two sequences.
#[verifier::external_body]
fn paint(style: &nu_ansi_term::Style, text: &str) -> (painted: String)
    ensures
        frames(text@, painted@),
{
    style.paint(text).to_string()
}

/// The components of `path`, each painted in the colour that `colors` gives it, in
/// order. A component without a colour rule is painted in the default style. Which
/// colour a component gets is for the colour rules and the disk to say.
pub(crate) fn paint_path(colors: &LsColors, path: &str) -> (painted: Vec<String>)
    ensures
        paints(path@, painted.deep_view()),
{
    let components = styled_components(colors, path);
    let mut painted: Vec<String> = Vec::new();
    let mut i: usize = 0;
    while i < components.len()
        invariant
            i <= components.len(),
            painted.len() == i,
            forall|k: int|
                0 <= k < i ==> frames(components@[k].text@, (#[trigger] painted@[k])@),
        decreases components.len() - i,
    {
        let ansi = match &components[i].style {
            Some(style) => style.to_nu_ansi_term_style(),
            None => nu_ansi_term::Style::default(),
        };
        painted.push(paint(&ansi, components[i].text.as_str()));
        i += 1;
    }
    proof {
        assert forall|k: int| 0 <= k < painted.deep_view().len() implies frames(
            path_components(path@)[k],
            #[trigger] painted.deep_view()[k],
        ) by {
            assert(painted.deep_view()[k] == painted@[k]@);
            assert(components@[k].text@ == path_components(path@)[k]);
        }
    }
    painted
}

} // verus!
