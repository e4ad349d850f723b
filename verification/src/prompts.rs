//! Prompt templates for text enhancement: the built-in set, applying a
//! template to a transcript, and editing the list of custom templates.
use vstd::prelude::*;
use vstd::string::StringExecFns;
use crate::text::{contains, replace_all, str_contains, str_eq, str_replace};

verus! {

broadcast use vstd::string::group_string_axioms;

/// A prompt template for text enhancement.
#[derive(Debug, Clone)]
pub struct PromptTemplate {
    /// Unique identifier for the prompt.
    pub id: String,
    /// Human-readable name.
    pub name: String,
    /// The template, with a `{text}` placeholder.
    pub template: String,
    /// Whether this is a built-in prompt (which cannot be deleted).
    pub is_builtin: bool,
}

/// The placeholder that a template's text goes into.
pub open spec fn placeholder() -> Seq<char> {
    "{text}"@
}

/// The number of built-in prompts.
pub const BUILTIN_PROMPT_COUNT: usize = 7;

/// The built-in prompt at position `i`, as `(id, name, instruction)`; its
/// template is the instruction followed by the placeholder.
pub open spec fn builtin_prompt(i: int) -> (Seq<char>, Seq<char>, Seq<char>) {
    if i == 0 {
        ("fix-grammar"@, "Fix Grammar"@,
            "Fix any grammar and spelling mistakes in the following text. Keep the original meaning, tone, and length. Do not add extra content or explanations. Only output the corrected text:\n\n"@)
    } else if i == 1 {
        ("make-professional"@, "Make Professional"@,
            "Rewrite the following text to be more professional and formal. Keep the same meaning and approximate length. Do not add extra content or explanations. Only output the rewritten text:\n\n"@)
    } else if i == 2 {
        ("make-casual"@, "Make Casual"@,
            "Rewrite the following text to be more casual and conversational. Keep the same meaning and approximate length. Do not add extra content or explanations. Only output the rewritten text:\n\n"@)
    } else if i == 3 {
        ("simplify"@, "Simplify"@,
            "Simplify the following text to be easier to understand. Use shorter sentences and simpler words. Keep the same meaning and approximate length. Do not add extra content or explanations. Only output the simplified text:\n\n"@)
    } else if i == 4 {
        ("summarise"@, "Summarise"@,
            "Summarise the following text concisely in 1-2 sentences. Keep only the most important points. Only output the summary:\n\n"@)
    } else if i == 5 {
        ("expand"@, "Expand"@,
            "Expand the following text with 2-3x more detail and explanation. Keep the same style and tone. Only output the expanded text:\n\n"@)
    } else {
        ("pirate-speak"@, "Speak Like a Pirate"@,
            "Rewrite the following text in pirate dialect. Use pirate vocabulary and speech patterns. Keep the same meaning and approximate length. Do not add extra content or explanations. Only output the rewritten text:\n\n"@)
    }
}

/// `p` is the built-in prompt at position `i`.
pub open spec fn is_builtin_prompt_at(p: PromptTemplate, i: int) -> bool {
    &&& p.id@ == builtin_prompt(i).0
    &&& p.name@ == builtin_prompt(i).1
    &&& p.template@ == builtin_prompt(i).2 + placeholder()
    &&& p.is_builtin
}

fn builtin(id: &str, name: &str, instruction: &str) -> (p: PromptTemplate)
    ensures
        p.id@ == id@,
        p.name@ == name@,
        p.template@ == instruction@ + placeholder(),
        p.is_builtin,
{
    let mut template = String::from_str(instruction);
    proof {
        reveal_strlit("{text}");
    }
    template.append("{text}");
    PromptTemplate {
        id: String::from_str(id),
        name: String::from_str(name),
        template,
        is_builtin: true,
    }
}

/// The built-in prompt templates, in their fixed order.
pub fn get_builtin_prompts() -> (r: Vec<PromptTemplate>)
    ensures
        r@.len() == BUILTIN_PROMPT_COUNT,
        forall|i: int| 0 <= i < BUILTIN_PROMPT_COUNT ==> is_builtin_prompt_at(#[trigger] r@[i], i),
{
    let r = vec![
        builtin(
            "fix-grammar",
            "Fix Grammar",
            "Fix any grammar and spelling mistakes in the following text. Keep the original meaning, tone, and length. Do not add extra content or explanations. Only output the corrected text:\n\n",
        ),
        builtin(
            "make-professional",
            "Make Professional",
            "Rewrite the following text to be more professional and formal. Keep the same meaning and approximate length. Do not add extra content or explanations. Only output the rewritten text:\n\n",
        ),
        builtin(
            "make-casual",
            "Make Casual",
            "Rewrite the following text to be more casual and conversational. Keep the same meaning and approximate length. Do not add extra content or explanations. Only output the rewritten text:\n\n",
        ),
        builtin(
            "simplify",
            "Simplify",
            "Simplify the following text to be easier to understand. Use shorter sentences and simpler words. Keep the same meaning and approximate length. Do not add extra content or explanations. Only output the simplified text:\n\n",
        ),
        builtin(
            "summarise",
            "Summarise",
            "Summarise the following text concisely in 1-2 sentences. Keep only the most important points. Only output the summary:\n\n",
        ),
        builtin(
            "expand",
            "Expand",
            "Expand the following text with 2-3x more detail and explanation. Keep the same style and tone. Only output the expanded text:\n\n",
        ),
        builtin(
            "pirate-speak",
            "Speak Like a Pirate",
            "Rewrite the following text in pirate dialect. Use pirate vocabulary and speech patterns. Keep the same meaning and approximate length. Do not add extra content or explanations. Only output the rewritten text:\n\n",
        ),
    ];
    assert(forall|i: int| 0 <= i < BUILTIN_PROMPT_COUNT ==> is_builtin_prompt_at(#[trigger] r@[i], i));
    r
}

/// Apply a prompt template to text: every `{text}` in the template is
/// replaced by `text`.
pub fn apply_prompt(template: &PromptTemplate, text: &str) -> (r: String)
    ensures
        r@ == replace_all(template.template@, placeholder(), text@),
{
    proof {
        reveal_strlit("{text}");
    }
    str_replace(template.template.as_str(), "{text}", text)
}

fn clone_prompt(p: &PromptTemplate) -> (r: PromptTemplate)
    ensures
        r == *p,
{
    PromptTemplate { id: p.id.clone(), name: p.name.clone(), template: p.template.clone(), is_builtin: p.is_builtin }
}

/// The first position in `prompts` whose prompt has identifier `id`.
pub open spec fn first_with_id(prompts: Seq<PromptTemplate>, id: Seq<char>) -> Option<int> {
    if exists|i: int| 0 <= i < prompts.len() && #[trigger] prompts[i].id@ == id {
        Some(choose|i: int| 0 <= i < prompts.len() && #[trigger] prompts[i].id@ == id
            && forall|j: int| 0 <= j < i ==> #[trigger] prompts[j].id@ != id)
    } else {
        None
    }
}

/// The prompts whose identifier is not `id`, in their order.
pub open spec fn without_id(prompts: Seq<PromptTemplate>, id: Seq<char>) -> Seq<PromptTemplate>
    decreases prompts.len(),
{
    if prompts.len() == 0 {
        prompts
    } else if prompts.last().id@ == id {
        without_id(prompts.drop_last(), id)
    } else {
        without_id(prompts.drop_last(), id).push(prompts.last())
    }
}

/// Scan for the first prompt with the given identifier.
fn position_of_id(prompts: &Vec<PromptTemplate>, id: &str) -> (r: Option<usize>)
    ensures
        match r {
            Some(i) => i < prompts@.len() && prompts@[i as int].id@ == id@ && forall|j: int|
                0 <= j < i ==> #[trigger] prompts@[j].id@ != id@,
            None => forall|j: int| 0 <= j < prompts@.len() ==> #[trigger] prompts@[j].id@ != id@,
        },
{
    let mut i: usize = 0;
    while i < prompts.len()
        invariant
            i <= prompts@.len(),
            forall|j: int| 0 <= j < i ==> #[trigger] prompts@[j].id@ != id@,
        decreases prompts@.len() - i,
    {
        if str_eq(prompts[i].id.as_str(), id) {
            return Some(i);
        }
        i = i + 1;
    }
    None
}

/// Add a custom prompt, or replace the first one with the same identifier.
pub fn upsert_prompt(prompts: &mut Vec<PromptTemplate>, prompt: PromptTemplate)
    ensures
        match first_with_id(old(prompts)@, prompt.id@) {
            Some(i) => final(prompts)@ == old(prompts)@.update(i, prompt),
            None => final(prompts)@ == old(prompts)@.push(prompt),
        },
{
    match position_of_id(prompts, prompt.id.as_str()) {
        Some(i) => {
            proof {
                let w = first_with_id(old(prompts)@, prompt.id@);
                assert(w is Some);
                let k = w->0;
                if k < i {
                    assert(old(prompts)@[k].id@ != prompt.id@);
                } else if k > i {
                    assert(old(prompts)@[i as int].id@ != prompt.id@);
                }
            }
            prompts.set(i, prompt);
        },
        None => {
            prompts.push(prompt);
        },
    }
}

/// Error text when no custom prompt has the identifier.
pub open spec fn prompt_not_found_message(id: Seq<char>) -> Seq<char> {
    "Prompt '"@ + id + "' not found"@
}

/// Remove every custom prompt with identifier `id`. Fails, leaving the list as
/// it was, when there is none.
pub fn remove_prompt(prompts: &mut Vec<PromptTemplate>, id: &str) -> (r: Result<(), String>)
    ensures
        r is Ok <==> exists|i: int| 0 <= i < old(prompts)@.len() && #[trigger] old(prompts)@[i].id@ == id@,
        r is Ok ==> final(prompts)@ == without_id(old(prompts)@, id@),
        r matches Err(e) ==> e@ == prompt_not_found_message(id@) && final(prompts)@ == old(prompts)@,
{
    let mut kept: Vec<PromptTemplate> = Vec::new();
    let mut found = false;
    let mut i: usize = 0;
    assert(old(prompts)@.take(0) =~= Seq::<PromptTemplate>::empty());
    while i < prompts.len()
        invariant
            i <= prompts@.len(),
            prompts@ == old(prompts)@,
            kept@ == without_id(prompts@.take(i as int), id@),
            found <==> exists|j: int| 0 <= j < i && #[trigger] prompts@[j].id@ == id@,
        decreases prompts@.len() - i,
    {
        assert(prompts@.take(i + 1).drop_last() =~= prompts@.take(i as int));
        assert(prompts@.take(i + 1).last() == prompts@[i as int]);
        if str_eq(prompts[i].id.as_str(), id) {
            found = true;
        } else {
            kept.push(clone_prompt(&prompts[i]));
        }
        i = i + 1;
    }
    assert(prompts@.take(prompts@.len() as int) =~= prompts@);
    if !found {
        let mut msg = String::from_str("Prompt '");
        proof {
            reveal_strlit("Prompt '");
            reveal_strlit("' not found");
        }
        msg.append(id);
        msg.append("' not found");
        return Err(msg);
    }
    *prompts = kept;
    Ok(())
}

/// Error texts of custom-prompt validation, in the order they are checked.
pub open spec fn builtin_save_message() -> Seq<char> {
    "Cannot save a built-in prompt as custom"@
}

/// See [`builtin_save_message`].
pub open spec fn empty_id_message() -> Seq<char> {
    "Prompt ID cannot be empty"@
}

/// See [`builtin_save_message`].
pub open spec fn empty_name_message() -> Seq<char> {
    "Prompt name cannot be empty"@
}

/// See [`builtin_save_message`].
pub open spec fn empty_template_message() -> Seq<char> {
    "Prompt template cannot be empty"@
}

/// See [`builtin_save_message`].
pub open spec fn missing_placeholder_message() -> Seq<char> {
    "Prompt template must contain {text} placeholder"@
}

/// Why a prompt cannot be saved as custom, if it cannot: a built-in flag, an
/// empty identifier, name or template, or a template without the placeholder,
/// checked in that order.
pub open spec fn custom_prompt_error(p: PromptTemplate) -> Option<Seq<char>> {
    if p.is_builtin {
        Some(builtin_save_message())
    } else if p.id@.len() == 0 {
        Some(empty_id_message())
    } else if p.name@.len() == 0 {
        Some(empty_name_message())
    } else if p.template@.len() == 0 {
        Some(empty_template_message())
    } else if !contains(p.template@, placeholder()) {
        Some(missing_placeholder_message())
    } else {
        None
    }
}

/// Check that a prompt may be saved as a custom prompt.
pub fn validate_custom_prompt(prompt: &PromptTemplate) -> (r: Result<(), String>)
    ensures
        match custom_prompt_error(*prompt) {
            None => r is Ok,
            Some(m) => r matches Err(e) && e@ == m,
        },
{
    if prompt.is_builtin {
        proof { reveal_strlit("Cannot save a built-in prompt as custom"); }
        return Err(String::from_str("Cannot save a built-in prompt as custom"));
    }
    if prompt.id.as_str().unicode_len() == 0 {
        proof { reveal_strlit("Prompt ID cannot be empty"); }
        return Err(String::from_str("Prompt ID cannot be empty"));
    }
    if prompt.name.as_str().unicode_len() == 0 {
        proof { reveal_strlit("Prompt name cannot be empty"); }
        return Err(String::from_str("Prompt name cannot be empty"));
    }
    if prompt.template.as_str().unicode_len() == 0 {
        proof { reveal_strlit("Prompt template cannot be empty"); }
        return Err(String::from_str("Prompt template cannot be empty"));
    }
    proof {
        reveal_strlit("{text}");
    }
    if !str_contains(prompt.template.as_str(), "{text}") {
        proof { reveal_strlit("Prompt template must contain {text} placeholder"); }
        return Err(String::from_str("Prompt template must contain {text} placeholder"));
    }
    Ok(())
}

/// `id` names a built-in prompt.
pub open spec fn is_builtin_id(id: Seq<char>) -> bool {
    exists|i: int| 0 <= i < BUILTIN_PROMPT_COUNT && #[trigger] builtin_prompt(i).0 == id
}

/// Error text for deleting a built-in prompt.
pub open spec fn builtin_delete_message() -> Seq<char> {
    "Cannot delete a built-in prompt"@
}

/// Check that the prompt with this identifier may be deleted: built-in
/// prompts may not.
pub fn check_deletable(prompt_id: &str) -> (r: Result<(), String>)
    ensures
        r is Ok <==> !is_builtin_id(prompt_id@),
        r matches Err(e) ==> e@ == builtin_delete_message(),
{
    let builtins = get_builtin_prompts();
    match position_of_id(&builtins, prompt_id) {
        Some(i) => {
            assert(builtin_prompt(i as int).0 == prompt_id@);
            proof { reveal_strlit("Cannot delete a built-in prompt"); }
            Err(String::from_str("Cannot delete a built-in prompt"))
        },
        None => {
            assert forall|i: int| 0 <= i < BUILTIN_PROMPT_COUNT implies #[trigger] builtin_prompt(i).0 != prompt_id@ by {
                assert(is_builtin_prompt_at(builtins@[i], i));
            }
            Ok(())
        },
    }
}

/// All prompt templates: the built-in ones, then the custom ones.
pub fn get_all_prompts(custom: Vec<PromptTemplate>) -> (r: Vec<PromptTemplate>)
    ensures
        r@.len() == BUILTIN_PROMPT_COUNT + custom@.len(),
        forall|i: int| 0 <= i < BUILTIN_PROMPT_COUNT ==> is_builtin_prompt_at(#[trigger] r@[i], i),
        r@.skip(BUILTIN_PROMPT_COUNT as int) == custom@,
{
    let mut r = get_builtin_prompts();
    let mut c = custom;
    let ghost b = r@;
    r.append(&mut c);
    assert(r@.skip(BUILTIN_PROMPT_COUNT as int) =~= custom@);
    assert(forall|i: int| 0 <= i < BUILTIN_PROMPT_COUNT ==> r@[i] == b[i]);
    r
}

/// The first prompt, built-in ones first, whose identifier is `prompt_id`.
pub fn get_prompt_by_id(custom: Vec<PromptTemplate>, prompt_id: &str) -> (r: Option<PromptTemplate>)
    ensures
        is_builtin_id(prompt_id@) ==> exists|i: int|
            0 <= i < BUILTIN_PROMPT_COUNT && builtin_prompt(i).0 == prompt_id@ && (forall|j: int|
                0 <= j < i ==> #[trigger] builtin_prompt(j).0 != prompt_id@) && (r matches Some(p)
                && is_builtin_prompt_at(p, i)),
        !is_builtin_id(prompt_id@) ==> match first_with_id(custom@, prompt_id@) {
            Some(i) => r == Some(custom@[i]),
            None => r is None,
        },
{
    let builtins = get_builtin_prompts();
    match position_of_id(&builtins, prompt_id) {
        Some(i) => {
            proof {
                assert(is_builtin_prompt_at(builtins@[i as int], i as int));
                assert forall|j: int| 0 <= j < i implies #[trigger] builtin_prompt(j).0 != prompt_id@ by {
                    assert(is_builtin_prompt_at(builtins@[j], j));
                }
            }
            return Some(clone_prompt(&builtins[i]));
        },
        None => {
            assert forall|i: int| 0 <= i < BUILTIN_PROMPT_COUNT implies #[trigger] builtin_prompt(i).0 != prompt_id@ by {
                assert(is_builtin_prompt_at(builtins@[i], i));
            }
        },
    }
    match position_of_id(&custom, prompt_id) {
        Some(i) => {
            proof {
                let w = first_with_id(custom@, prompt_id@);
                let k = w->0;
                if k < i {
                    assert(custom@[k].id@ != prompt_id@);
                } else if k > i {
                    assert(custom@[i as int].id@ != prompt_id@);
                }
            }
            Some(clone_prompt(&custom[i]))
        },
        None => None,
    }
}

/// The built-in prompts are well formed: each has a non-empty identifier and
/// name, its template holds the placeholder, and no two share an identifier.
pub proof fn lemma_builtin_prompts_well_formed()
    ensures
        forall|i: int| 0 <= i < BUILTIN_PROMPT_COUNT ==> (#[trigger] builtin_prompt(i)).0.len() > 0,
        forall|i: int| 0 <= i < BUILTIN_PROMPT_COUNT ==> (#[trigger] builtin_prompt(i)).1.len() > 0,
        forall|i: int| 0 <= i < BUILTIN_PROMPT_COUNT ==> contains(
            #[trigger] (builtin_prompt(i).2 + placeholder()),
            placeholder(),
        ),
        forall|i: int, j: int|
            0 <= i < j < BUILTIN_PROMPT_COUNT ==> #[trigger] builtin_prompt(i).0 != #[trigger] builtin_prompt(j).0,
{
    reveal_strlit("fix-grammar");
    reveal_strlit("make-professional");
    reveal_strlit("make-casual");
    reveal_strlit("simplify");
    reveal_strlit("summarise");
    reveal_strlit("expand");
    reveal_strlit("pirate-speak");
    reveal_strlit("Fix Grammar");
    reveal_strlit("Make Professional");
    reveal_strlit("Make Casual");
    reveal_strlit("Simplify");
    reveal_strlit("Summarise");
    reveal_strlit("Expand");
    reveal_strlit("Speak Like a Pirate");
    assert forall|i: int| 0 <= i < BUILTIN_PROMPT_COUNT implies contains(
        #[trigger] (builtin_prompt(i).2 + placeholder()),
        placeholder(),
    ) by {
        let t = builtin_prompt(i).2 + placeholder();
        let k = builtin_prompt(i).2.len() as int;
        assert(t.subrange(k, k + placeholder().len()) =~= placeholder());
    }
    assert(builtin_prompt(0).0.len() == 11);
    assert(builtin_prompt(1).0.len() == 17);
    assert(builtin_prompt(2).0.len() == 11);
    assert(builtin_prompt(3).0.len() == 8);
    assert(builtin_prompt(4).0.len() == 9);
    assert(builtin_prompt(5).0.len() == 6);
    assert(builtin_prompt(6).0.len() == 12);
    assert(builtin_prompt(0).0[0] != builtin_prompt(2).0[0]);
    assert forall|i: int, j: int| 0 <= i < j < BUILTIN_PROMPT_COUNT implies #[trigger] builtin_prompt(i).0
        != #[trigger] builtin_prompt(j).0 by {
        if i == 0 && j == 2 {
            assert(builtin_prompt(i).0[0] != builtin_prompt(j).0[0]);
        } else {
            assert(builtin_prompt(i).0.len() != builtin_prompt(j).0.len());
        }
    }
}

} // verus!
