//! The example registry: which definitions are selected, how they expand
//! into scheduled instances, and how each instance is presented.

use vstd::arithmetic::div_mod::lemma_fundamental_div_mod_converse;
use vstd::prelude::*;
use vstd::utf8::encode_utf8;

verus! {

/// How often each example runs unless the caller says otherwise.
pub const DEFAULT_REPETITIONS: u32 = 1;

/// The number of entries of the colour palette.
pub const PALETTE_SIZE: usize = 12;

/// A benchmark task as it was loaded: its name, the language tag it was
/// recognised with, if any, and the repository it starts from.
#[derive(Clone, Debug)]
pub struct ExampleDefinition {
    pub name: String,
    pub language: Option<String>,
    pub url: String,
    pub revision: String,
}

/// One (example, repetition) pair with its presentation: the index of its
/// definition, the repetition index, the palette index of its colour and the
/// padding width shared by all instances.
#[derive(Clone, Copy, PartialEq, Eq, Structural, Debug)]
pub struct ScheduledInstance {
    pub definition: usize,
    pub repetition: u32,
    pub color: usize,
    pub name_width: usize,
}

/// The definitions that passed the name filter, by index and in order:
/// those with an allowed language, and those skipped for their language.
#[derive(Clone, Debug)]
pub struct Selection {
    pub selected: Vec<usize>,
    pub skipped: Vec<usize>,
}

/// The instances to run, in submission order, with the definitions that were
/// skipped and the padding width.
#[derive(Clone, Debug)]
pub struct Schedule {
    pub instances: Vec<ScheduledInstance>,
    pub skipped: Vec<usize>,
    pub name_width: usize,
}

/// `pattern` occurs in `text` as a contiguous run of characters.
pub open spec fn is_substring(pattern: Seq<char>, text: Seq<char>) -> bool {
    exists|start: int|
        0 <= start && start + pattern.len() <= text.len() && #[trigger] text.subrange(
            start,
            start + pattern.len(),
        ) == pattern
}

/// A name passes the filter when there is no filter term, or when one of
/// the terms occurs in it.
pub open spec fn matches_filters(name: Seq<char>, filters: Seq<String>) -> bool {
    filters.len() == 0 || exists|k: int|
        0 <= k < filters.len() && is_substring((#[trigger] filters[k])@, name)
}

/// A language tag is allowed when it is present and in the allowed list.
pub open spec fn allowed_language(language: Option<String>, allowed: Seq<String>) -> bool {
    match language {
        Some(tag) => exists|k: int| 0 <= k < allowed.len() && (#[trigger] allowed[k])@ == tag@,
        None => false,
    }
}

/// The indices below `n` of the definitions that pass the name filter and
/// whose language is allowed (`want_allowed`) or is not (otherwise), in
/// order.
pub open spec fn chosen(
    definitions: Seq<ExampleDefinition>,
    filters: Seq<String>,
    allowed: Seq<String>,
    want_allowed: bool,
    n: int,
) -> Seq<usize>
    decreases n,
{
    if n <= 0 {
        Seq::empty()
    } else {
        let rest = chosen(definitions, filters, allowed, want_allowed, n - 1);
        let d = definitions[n - 1];
        if matches_filters(d.name@, filters) && allowed_language(d.language, allowed)
            == want_allowed {
            rest.push((n - 1) as usize)
        } else {
            rest
        }
    }
}

/// The length of a definition's name in bytes.
pub open spec fn name_len(definition: ExampleDefinition) -> usize {
    encode_utf8(definition.name@).len() as usize
}

/// The length of the longest name among the selected definitions.
pub open spec fn longest_name(definitions: Seq<ExampleDefinition>, selected: Seq<usize>) -> usize
    decreases selected.len(),
{
    if selected.len() == 0 {
        0
    } else {
        let rest = longest_name(definitions, selected.drop_last());
        let len = name_len(definitions[selected.last() as int]);
        if len > rest {
            len
        } else {
            rest
        }
    }
}

/// The position among the selected definitions that the instance at position
/// `k` of the flattened order belongs to.
pub open spec fn group_of(k: int, repetitions: int) -> int {
    k / repetitions
}

/// The instance at position `k` of the flattened order: repetitions of one
/// definition stand together, colours cycle through the palette.
pub open spec fn instance_at(
    selected: Seq<usize>,
    repetitions: int,
    width: usize,
    k: int,
) -> ScheduledInstance {
    ScheduledInstance {
        definition: selected[group_of(k, repetitions)],
        repetition: (k % repetitions) as u32,
        color: (k % 12) as usize,
        name_width: width,
    }
}

/// Every chosen index is below `n`, and the indices ascend.
pub proof fn lemma_chosen_in_range(
    definitions: Seq<ExampleDefinition>,
    filters: Seq<String>,
    allowed: Seq<String>,
    want_allowed: bool,
    n: int,
)
    ensures
        chosen(definitions, filters, allowed, want_allowed, n).len() <= if n < 0 {
            0
        } else {
            n
        },
        forall|k: int|
            0 <= k < chosen(definitions, filters, allowed, want_allowed, n).len() ==> (
            #[trigger] chosen(definitions, filters, allowed, want_allowed, n)[k]) < n,
    decreases n,
{
    if n > 0 {
        lemma_chosen_in_range(definitions, filters, allowed, want_allowed, n - 1);
    }
}

/// `str::contains` with a string pattern: whether `pattern` occurs in
/// `text`. The standard library documents it as true exactly when the
/// pattern matches a sub-slice of the text; nothing here proves that.
#[verifier::external_body]
fn text_contains(text: &str, pattern: &str) -> (found: bool)
    ensures
        found == is_substring(pattern@, text@),
{
    text.contains(pattern)
}

/// Whether `name` passes the name filter.
pub fn name_matches(name: &str, filters: &Vec<String>) -> (matches: bool)
    ensures
        matches == matches_filters(name@, filters@),
{
    if filters.len() == 0 {
        return true;
    }
    let mut k: usize = 0;
    while k < filters.len()
        invariant
            k <= filters.len(),
            forall|j: int| 0 <= j < k ==> !is_substring((#[trigger] filters@[j])@, name@),
        decreases filters.len() - k,
    {
        if text_contains(name, filters[k].as_str()) {
            return true;
        }
        k += 1;
    }
    false
}

/// Whether a definition's language tag is recognised and allowed.
pub fn language_allowed(language: &Option<String>, allowed: &Vec<String>) -> (ok: bool)
    ensures
        ok == allowed_language(*language, allowed@),
{
    match language {
        None => false,
        Some(tag) => {
            let mut k: usize = 0;
            while k < allowed.len()
                invariant
                    k <= allowed.len(),
                    *language == Some(*tag),
                    forall|j: int| 0 <= j < k ==> (#[trigger] allowed@[j])@ != tag@,
                decreases allowed.len() - k,
            {
                if allowed[k] == *tag {
                    return true;
                }
                k += 1;
            }
            false
        },
    }
}

/// Applies the name filter and the language filter to the definitions.
pub fn select(
    definitions: &Vec<ExampleDefinition>,
    filters: &Vec<String>,
    allowed: &Vec<String>,
) -> (selection: Selection)
    ensures
        selection.selected@ == chosen(
            definitions@,
            filters@,
            allowed@,
            true,
            definitions@.len() as int,
        ),
        selection.skipped@ == chosen(
            definitions@,
            filters@,
            allowed@,
            false,
            definitions@.len() as int,
        ),
{
    let mut selected: Vec<usize> = Vec::new();
    let mut skipped: Vec<usize> = Vec::new();
    let mut i: usize = 0;
    while i < definitions.len()
        invariant
            i <= definitions.len(),
            selected@ == chosen(definitions@, filters@, allowed@, true, i as int),
            skipped@ == chosen(definitions@, filters@, allowed@, false, i as int),
        decreases definitions.len() - i,
    {
        if name_matches(definitions[i].name.as_str(), filters) {
            if language_allowed(&definitions[i].language, allowed) {
                selected.push(i);
            } else {
                skipped.push(i);
            }
        }
        i += 1;
    }
    Selection { selected, skipped }
}

/// The padding width: the byte length of the longest selected name.
pub fn padding_width(definitions: &Vec<ExampleDefinition>, selected: &Vec<usize>) -> (width: usize)
    requires
        forall|k: int| 0 <= k < selected@.len() ==> (#[trigger] selected@[k]) < definitions@.len(),
    ensures
        width == longest_name(definitions@, selected@),
{
    let mut width: usize = 0;
    let mut i: usize = 0;
    while i < selected.len()
        invariant
            i <= selected.len(),
            forall|k: int|
                0 <= k < selected@.len() ==> (#[trigger] selected@[k]) < definitions@.len(),
            width == longest_name(definitions@, selected@.take(i as int)),
        decreases selected.len() - i,
    {
        proof {
            assert(selected@.take(i + 1).drop_last() =~= selected@.take(i as int));
        }
        let len = definitions[selected[i]].name.as_str().len();
        if len > width {
            width = len;
        }
        i += 1;
    }
    proof {
        assert(selected@.take(i as int) =~= selected@);
    }
    width
}

/// Expands each selected definition into `repetitions` instances with
/// repetition indices from zero up, and gives each instance its colour by
/// position and the shared width.
pub fn expand(selected: &Vec<usize>, repetitions: u32, width: usize) -> (instances: Vec<
    ScheduledInstance,
>)
    ensures
        instances@.len() == selected@.len() * repetitions,
        forall|k: int|
            0 <= k < instances@.len() ==> #[trigger] instances@[k] == instance_at(
                selected@,
                repetitions as int,
                width,
                k,
            ),
        forall|k: int|
            0 <= k < instances@.len() ==> 0 <= #[trigger] group_of(k, repetitions as int)
                < selected@.len(),
        forall|k: int|
            0 <= k < instances@.len() ==> (#[trigger] instances@[k]).color < PALETTE_SIZE
                && instances@[k].repetition < repetitions,
{
    let mut instances: Vec<ScheduledInstance> = Vec::new();
    let mut s: usize = 0;
    assert(0 * repetitions == 0);
    while s < selected.len()
        invariant
            s <= selected.len(),
            instances@.len() == s * repetitions,
            forall|k: int|
                0 <= k < instances@.len() ==> #[trigger] instances@[k] == instance_at(
                    selected@,
                    repetitions as int,
                    width,
                    k,
                ),
            forall|k: int|
                0 <= k < instances@.len() ==> 0 <= #[trigger] group_of(k, repetitions as int)
                    < selected@.len(),
            forall|k: int|
                0 <= k < instances@.len() ==> (#[trigger] instances@[k]).color < PALETTE_SIZE
                    && instances@[k].repetition < repetitions,
        decreases selected.len() - s,
    {
        let mut r: u32 = 0;
        while r < repetitions
            invariant
                s < selected.len(),
                r <= repetitions,
                instances@.len() == s * repetitions + r,
                forall|k: int|
                    0 <= k < instances@.len() ==> #[trigger] instances@[k] == instance_at(
                        selected@,
                        repetitions as int,
                        width,
                        k,
                    ),
                forall|k: int|
                    0 <= k < instances@.len() ==> 0 <= #[trigger] group_of(k, repetitions as int)
                        < selected@.len(),
                forall|k: int|
                    0 <= k < instances@.len() ==> (#[trigger] instances@[k]).color < PALETTE_SIZE
                        && instances@[k].repetition < repetitions,
            decreases repetitions - r,
        {
            let position = instances.len();
            proof {
                lemma_fundamental_div_mod_converse(
                    position as int,
                    repetitions as int,
                    s as int,
                    r as int,
                );
            }
            instances.push(
                ScheduledInstance {
                    definition: selected[s],
                    repetition: r,
                    color: position % PALETTE_SIZE,
                    name_width: width,
                },
            );
            r += 1;
        }
        proof {
            assert((s + 1) * repetitions == s * repetitions + repetitions) by (nonlinear_arith);
        }
        s += 1;
    }
    instances
}

/// From the loaded definitions to the instances to run: filter by name and
/// language, expand by repetition, assign colours and the padding width.
/// An empty `instances` says that there is nothing to run.
pub fn schedule(
    definitions: &Vec<ExampleDefinition>,
    filters: &Vec<String>,
    allowed: &Vec<String>,
    repetitions: u32,
) -> (plan: Schedule)
    ensures
        plan.skipped@ == chosen(
            definitions@,
            filters@,
            allowed@,
            false,
            definitions@.len() as int,
        ),
        plan.name_width == longest_name(
            definitions@,
            chosen(definitions@, filters@, allowed@, true, definitions@.len() as int),
        ),
        plan.instances@.len() == chosen(
            definitions@,
            filters@,
            allowed@,
            true,
            definitions@.len() as int,
        ).len() * repetitions,
        forall|k: int|
            0 <= k < plan.instances@.len() ==> #[trigger] plan.instances@[k] == instance_at(
                chosen(definitions@, filters@, allowed@, true, definitions@.len() as int),
                repetitions as int,
                plan.name_width,
                k,
            ),
        forall|k: int|
            0 <= k < plan.instances@.len() ==> (#[trigger] plan.instances@[k]).definition
                < definitions@.len() && plan.instances@[k].color < PALETTE_SIZE
                && plan.instances@[k].repetition < repetitions,
{
    let selection = select(definitions, filters, allowed);
    proof {
        lemma_chosen_in_range(definitions@, filters@, allowed@, true, definitions@.len() as int);
    }
    let width = padding_width(definitions, &selection.selected);
    let instances = expand(&selection.selected, repetitions, width);
    proof {
        assert forall|k: int| 0 <= k < instances@.len() implies (#[trigger] instances@[k]).definition
            < definitions@.len() by {
            let g = group_of(k, repetitions as int);
            assert(0 <= g < selection.selected@.len());
            assert(instances@[k] == instance_at(
                selection.selected@,
                repetitions as int,
                width,
                k,
            ));
            assert(selection.selected@[g] < definitions@.len());
        }
    }
    Schedule { instances, skipped: selection.skipped, name_width: width }
}

/// The terminal escape sequence of a palette entry.
pub fn palette_color(index: usize) -> (code: &'static str)
    requires
        index < PALETTE_SIZE,
    ensures
        code@ == palette_spec(index as int),
{
    match index {
        0 => "\x1b[31m",
        1 => "\x1b[32m",
        2 => "\x1b[33m",
        3 => "\x1b[34m",
        4 => "\x1b[35m",
        5 => "\x1b[36m",
        6 => "\x1b[91m",
        7 => "\x1b[92m",
        8 => "\x1b[93m",
        9 => "\x1b[94m",
        10 => "\x1b[95m",
        _ => "\x1b[96m",
    }
}

/// The palette: red, green, yellow, blue, magenta, cyan, then their bright
/// variants.
pub open spec fn palette_spec(index: int) -> Seq<char> {
    if index == 0 {
        "\x1b[31m"@
    } else if index == 1 {
        "\x1b[32m"@
    } else if index == 2 {
        "\x1b[33m"@
    } else if index == 3 {
        "\x1b[34m"@
    } else if index == 4 {
        "\x1b[35m"@
    } else if index == 5 {
        "\x1b[36m"@
    } else if index == 6 {
        "\x1b[91m"@
    } else if index == 7 {
        "\x1b[92m"@
    } else if index == 8 {
        "\x1b[93m"@
    } else if index == 9 {
        "\x1b[94m"@
    } else if index == 10 {
        "\x1b[95m"@
    } else {
        "\x1b[96m"@
    }
}

} // verus!
