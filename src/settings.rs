//! Markup rules: literal substrings to delete and ordered search / replace pairs.
use vstd::prelude::*;

verus! {

/// One literal search / replace pair.
pub struct ContentReplace<'a> {
    pub search: &'a str,
    pub replace: &'a str,
}

/// Rules applied to every line: first each of `removes` is deleted, in order,
/// then each pair of `replaces` is applied, in order.
pub struct HarlawSettings<'a> {
    pub replaces: Vec<ContentReplace<'a>>,
    pub removes: Vec<&'a str>,
}

/// A rule set as plain character sequences.
pub struct MarkupRules {
    pub removes: Seq<Seq<char>>,
    pub replaces: Seq<(Seq<char>, Seq<char>)>,
}

impl<'a> View for ContentReplace<'a> {
    type V = (Seq<char>, Seq<char>);

    open spec fn view(&self) -> (Seq<char>, Seq<char>) {
        (self.search@, self.replace@)
    }
}

impl<'a> View for HarlawSettings<'a> {
    type V = MarkupRules;

    open spec fn view(&self) -> MarkupRules {
        MarkupRules {
            removes: self.removes@.map_values(|r: &'a str| r@),
            replaces: self.replaces@.map_values(|p: ContentReplace<'a>| p@),
        }
    }
}

/// Structural meaning markers.
pub open spec fn meaning_tags() -> Seq<&'static str> {
    seq![
        "[/m]", "[m1]", "[m2]", "[m3]", "[m4]", "[m5]", "[m6]", "[m7]", "[m8]", "[m9]", "[m10]"
    ]
}

fn meaning_tag_list() -> (r: Vec<&'static str>)
    ensures
        r@ == meaning_tags(),
{
    vec![
        "[/m]", "[m1]", "[m2]", "[m3]", "[m4]", "[m5]", "[m6]", "[m7]", "[m8]", "[m9]", "[m10]"
    ]
}

/// Lingvo color tags.
pub open spec fn color_tags() -> Seq<&'static str> {
    seq![
        "[c aliceblue]", "[c antiquewhite]", "[c aqua]", "[c aquamarine]", "[c azure]",
        "[c beige]", "[c bisque]", "[c blanchedalmond]", "[c blue]", "[c blueviolet]",
        "[c brown]", "[c burlywood]", "[c cadetblue]", "[c chartreuse]", "[c chocolate]",
        "[c coral]", "[c cornflowerblue]", "[c cornsilk]", "[c crimson]", "[c cyan]",
        "[c darkblue]", "[c darkcyan]", "[c darkgoldenrod]", "[c darkgray]", "[c darkgreen]",
        "[c darkkhaki]", "[c darkmagenta]", "[c darkolivegreen]", "[c darkorange]",
        "[c darkorchid]", "[c darkred]", "[c darksalmon]", "[c darkseagreen]",
        "[c darkslateblue]", "[c darkslategray]", "[c darkturquoise]", "[c darkviolet]",
        "[c deeppink]", "[c deepskyblue]", "[c dimgray]", "[c dodgerblue]", "[c firebrick]",
        "[c floralwhite]", "[c forestgreen]", "[c fuchsia]", "[c gainsboro]", "[c ghostwhite]",
        "[c gold]", "[c goldenrod]", "[c gray]", "[c green]", "[c greenyellow]", "[c honeydew]",
        "[c hotpink]", "[c indianred]", "[c indigo]", "[c ivory]", "[c khaki]", "[c lavender]",
        "[c lavenderblush]", "[c lawngreen]", "[c lemonchiffon]", "[c lightblue]",
        "[c lightcoral]", "[c lightcyan]", "[c lightgoldenrodyellow]", "[c lightgreen]",
        "[c lightgrey]", "[c lightpink]", "[c lightsalmon]", "[c lightseagreen]",
        "[c lightskyblue]", "[c lightslategray]", "[c lightsteelblue]", "[c lightyellow]",
        "[c lime]", "[c limegreen]", "[c linen]", "[c magenta]", "[c maroon]",
        "[c mediumaquamarine]", "[c mediumblue]", "[c mediumorchid]", "[c mediumpurple]",
        "[c mediumseagreen]", "[c mediumslateblue]", "[c mediumspringgreen]",
        "[c mediumturquoise]", "[c mediumvioletred]", "[c midnightblue]", "[c mintcream]",
        "[c mistyrose]", "[c moccasin]", "[c navajowhite]", "[c navy]", "[c oldlace]",
        "[c olive]", "[c olivedrab]", "[c orange]", "[c orangered]", "[c orchid]",
        "[c palegoldenrod]", "[c palegreen]", "[c paleturquoise]", "[c palevioletred]",
        "[c papayawhip]", "[c peachpuff]", "[c peru]", "[c pink]", "[c plum]", "[c powderblue]",
        "[c purple]", "[c red]", "[c rosybrown]", "[c royalblue]", "[c saddlebrown]",
        "[c salmon]", "[c sandybrown]", "[c seagreen]", "[c seashell]", "[c sienna]",
        "[c silver]", "[c skyblue]", "[c slateblue]", "[c slategray]", "[c snow]",
        "[c springgreen]", "[c steelblue]", "[c tan]", "[c teal]", "[c thistle]", "[c tomato]",
        "[c turquoise]", "[c violet]", "[c wheat]", "[c white]", "[c whitesmoke]", "[c yellow]",
        "[c yellowgreen]", "[/c]"
    ]
}

fn color_tag_list() -> (r: Vec<&'static str>)
    ensures
        r@ == color_tags(),
{
    vec![
        "[c aliceblue]", "[c antiquewhite]", "[c aqua]", "[c aquamarine]", "[c azure]",
        "[c beige]", "[c bisque]", "[c blanchedalmond]", "[c blue]", "[c blueviolet]",
        "[c brown]", "[c burlywood]", "[c cadetblue]", "[c chartreuse]", "[c chocolate]",
        "[c coral]", "[c cornflowerblue]", "[c cornsilk]", "[c crimson]", "[c cyan]",
        "[c darkblue]", "[c darkcyan]", "[c darkgoldenrod]", "[c darkgray]", "[c darkgreen]",
        "[c darkkhaki]", "[c darkmagenta]", "[c darkolivegreen]", "[c darkorange]",
        "[c darkorchid]", "[c darkred]", "[c darksalmon]", "[c darkseagreen]",
        "[c darkslateblue]", "[c darkslategray]", "[c darkturquoise]", "[c darkviolet]",
        "[c deeppink]", "[c deepskyblue]", "[c dimgray]", "[c dodgerblue]", "[c firebrick]",
        "[c floralwhite]", "[c forestgreen]", "[c fuchsia]", "[c gainsboro]", "[c ghostwhite]",
        "[c gold]", "[c goldenrod]", "[c gray]", "[c green]", "[c greenyellow]", "[c honeydew]",
        "[c hotpink]", "[c indianred]", "[c indigo]", "[c ivory]", "[c khaki]", "[c lavender]",
        "[c lavenderblush]", "[c lawngreen]", "[c lemonchiffon]", "[c lightblue]",
        "[c lightcoral]", "[c lightcyan]", "[c lightgoldenrodyellow]", "[c lightgreen]",
        "[c lightgrey]", "[c lightpink]", "[c lightsalmon]", "[c lightseagreen]",
        "[c lightskyblue]", "[c lightslategray]", "[c lightsteelblue]", "[c lightyellow]",
        "[c lime]", "[c limegreen]", "[c linen]", "[c magenta]", "[c maroon]",
        "[c mediumaquamarine]", "[c mediumblue]", "[c mediumorchid]", "[c mediumpurple]",
        "[c mediumseagreen]", "[c mediumslateblue]", "[c mediumspringgreen]",
        "[c mediumturquoise]", "[c mediumvioletred]", "[c midnightblue]", "[c mintcream]",
        "[c mistyrose]", "[c moccasin]", "[c navajowhite]", "[c navy]", "[c oldlace]",
        "[c olive]", "[c olivedrab]", "[c orange]", "[c orangered]", "[c orchid]",
        "[c palegoldenrod]", "[c palegreen]", "[c paleturquoise]", "[c palevioletred]",
        "[c papayawhip]", "[c peachpuff]", "[c peru]", "[c pink]", "[c plum]", "[c powderblue]",
        "[c purple]", "[c red]", "[c rosybrown]", "[c royalblue]", "[c saddlebrown]",
        "[c salmon]", "[c sandybrown]", "[c seagreen]", "[c seashell]", "[c sienna]",
        "[c silver]", "[c skyblue]", "[c slateblue]", "[c slategray]", "[c snow]",
        "[c springgreen]", "[c steelblue]", "[c tan]", "[c teal]", "[c thistle]", "[c tomato]",
        "[c turquoise]", "[c violet]", "[c wheat]", "[c white]", "[c whitesmoke]", "[c yellow]",
        "[c yellowgreen]", "[/c]"
    ]
}

/// Non-presentational tags.
pub open spec fn common_tags() -> Seq<&'static str> {
    seq![
        "[u]", "[/u]", "[trn]", "[/trn]", "[!trs]", "[/!trs]", "[com]", "[/com]", "[s]", "[/s]",
        "[lang]", "[/lang]", "[ex]", "[/ex]"
    ]
}

fn common_tag_list() -> (r: Vec<&'static str>)
    ensures
        r@ == common_tags(),
{
    vec![
        "[u]", "[/u]", "[trn]", "[/trn]", "[!trs]", "[/!trs]", "[com]", "[/com]", "[s]", "[/s]",
        "[lang]", "[/lang]", "[ex]", "[/ex]"
    ]
}

/// Presentational tags: what the default rules search for and rewrite.
pub open spec fn presentational_tags() -> Seq<&'static str> {
    seq![
        "[b]", "[/b]", "[i]", "[/i]", "[p]", "[/p]", "{-}", "[ref]", "[/ref]", "[sub]",
        "[/sub]", "[sup]", "[/sup]"
    ]
}

fn presentational_tag_list() -> (r: Vec<&'static str>)
    ensures
        r@ == presentational_tags(),
{
    vec![
        "[b]", "[/b]", "[i]", "[/i]", "[p]", "[/p]", "{-}", "[ref]", "[/ref]", "[sub]",
        "[/sub]", "[sup]", "[/sup]"
    ]
}

/// The replacements of the default rules: presentational tags become HTML.
pub open spec fn html_replaces() -> Seq<ContentReplace<'static>> {
    seq![
        ContentReplace { search: "[b]", replace: "<strong>" },
        ContentReplace { search: "[/b]", replace: "</strong>" },
        ContentReplace { search: "[i]", replace: "<i>" },
        ContentReplace { search: "[/i]", replace: "</i>" },
        ContentReplace { search: "[p]", replace: "<span>" },
        ContentReplace { search: "[/p]", replace: "</span>" },
        ContentReplace { search: "{-}", replace: "-" },
        ContentReplace { search: "[ref]", replace: "<span class=\"reference\">" },
        ContentReplace { search: "[/ref]", replace: "</span>" },
        ContentReplace { search: "[sub]", replace: "<sub>" },
        ContentReplace { search: "[/sub]", replace: "</sub>" },
        ContentReplace { search: "[sup]", replace: "<sup>" },
        ContentReplace { search: "[/sup]", replace: "</sup>" },
    ]
}

fn get_replaces() -> (r: Vec<ContentReplace<'static>>)
    ensures
        r@ == html_replaces(),
{
    vec![
        ContentReplace { search: "[b]", replace: "<strong>" },
        ContentReplace { search: "[/b]", replace: "</strong>" },
        ContentReplace { search: "[i]", replace: "<i>" },
        ContentReplace { search: "[/i]", replace: "</i>" },
        ContentReplace { search: "[p]", replace: "<span>" },
        ContentReplace { search: "[/p]", replace: "</span>" },
        ContentReplace { search: "{-}", replace: "-" },
        ContentReplace { search: "[ref]", replace: "<span class=\"reference\">" },
        ContentReplace { search: "[/ref]", replace: "</span>" },
        ContentReplace { search: "[sub]", replace: "<sub>" },
        ContentReplace { search: "[/sub]", replace: "</sub>" },
        ContentReplace { search: "[sup]", replace: "<sup>" },
        ContentReplace { search: "[/sup]", replace: "</sup>" },
    ]
}

/// What the default rules delete: meaning markers, colors, the tab character
/// and the common non-presentational tags.
pub open spec fn default_removes() -> Seq<&'static str> {
    meaning_tags() + color_tags() + seq!["\t"] + common_tags()
}

fn default_remove_list() -> (r: Vec<&'static str>)
    ensures
        r@ == default_removes(),
{
    let mut removes = meaning_tag_list();
    let mut colors = color_tag_list();
    removes.append(&mut colors);
    removes.push("\t");
    let mut common = common_tag_list();
    removes.append(&mut common);
    removes
}

/// The default rules as character sequences.
pub open spec fn default_rules() -> MarkupRules {
    MarkupRules {
        removes: default_removes().map_values(|r: &'static str| r@),
        replaces: html_replaces().map_values(|p: ContentReplace<'static>| p@),
    }
}

/// The rules without markup as character sequences.
pub open spec fn no_markup_rules() -> MarkupRules {
    MarkupRules {
        removes: (default_removes() + presentational_tags()).map_values(|r: &'static str| r@),
        replaces: Seq::empty(),
    }
}

/// The default rules: Lingvo structure and colors are deleted, presentational
/// tags are rewritten into their HTML equivalents.
pub fn get_default_settings() -> (r: HarlawSettings<'static>)
    ensures
        r.removes@ == default_removes(),
        r.replaces@ == html_replaces(),
        r@ == default_rules(),
{
    HarlawSettings { removes: default_remove_list(), replaces: get_replaces() }
}

/// The rules without markup: every known tag is deleted and nothing is replaced.
pub fn get_no_markup_settings() -> (r: HarlawSettings<'static>)
    ensures
        r.removes@ == default_removes() + presentational_tags(),
        r.removes@ == default_removes() + html_replaces().map_values(
            |p: ContentReplace<'static>| p.search,
        ),
        r.replaces@ == Seq::<ContentReplace<'static>>::empty(),
        r@ == no_markup_rules(),
{
    assert(presentational_tags() =~= html_replaces().map_values(
        |p: ContentReplace<'static>| p.search,
    ));
    let mut removes = default_remove_list();
    let mut presentational = presentational_tag_list();
    removes.append(&mut presentational);
    let r = HarlawSettings { removes, replaces: Vec::new() };
    assert(r@.replaces =~= Seq::<(Seq<char>, Seq<char>)>::empty());
    r
}

} // verus!
