//! Prompt formatting: the tool declarations that a template sees, the inputs of
//! completion requests, and where a model's template comes from.

use crate::json::{JsonShape, JsonTree};
use vstd::prelude::*;
use vstd::string::*;

verus! {

/// The position of the first field of a name, or the number of fields.
pub open spec fn field_at<T>(fields: Seq<(String, JsonTree<T>)>, name: Seq<char>) -> int
    decreases fields.len(),
{
    if fields.len() == 0 || fields.first().0@ == name {
        0
    } else {
        1 + field_at(fields.skip(1), name)
    }
}

/// A description that says nothing.
pub open spec fn says_nothing<T>(value: JsonTree<T>) -> bool {
    value is Null || (value is Text && value->Text_0@.len() == 0)
}

/// The fields without a description that says nothing; all others stay as and
/// where they are.
pub open spec fn cleaned<T>(fields: Seq<(String, JsonTree<T>)>) -> Seq<(String, JsonTree<T>)> {
    let at = field_at(fields, "description"@);
    if at < fields.len() && says_nothing(fields[at].1) {
        fields.remove(at)
    } else {
        fields
    }
}

/// `after` is `before` with its function cleaned.
pub open spec fn function_cleaned<T>(
    before: Seq<(String, JsonTree<T>)>,
    after: Seq<(String, JsonTree<T>)>,
) -> bool {
    let at = field_at(before, "function"@);
    if at < before.len() && before[at].1 is Object {
        &&& after.len() == before.len()
        &&& forall|i: int| 0 <= i < before.len() && i != at ==> after[i] == #[trigger] before[i]
        &&& after[at].0 == before[at].0
        &&& after[at].1 is Object
        &&& after[at].1->Object_0@ == cleaned(before[at].1->Object_0@)
    } else {
        after == before
    }
}

/// `after` is the tool `before` without descriptions that say nothing, under
/// `function` and at the top.
pub open spec fn tool_stripped<T>(before: JsonTree<T>, after: JsonTree<T>) -> bool {
    if before is Object {
        &&& after is Object
        &&& exists|middle: Seq<(String, JsonTree<T>)>| #[trigger]
            function_cleaned(before->Object_0@, middle) && after->Object_0@ == cleaned(middle)
    } else {
        after == before
    }
}

/// `after` are the tools `before` without descriptions that say nothing.
pub open spec fn tools_stripped<T>(before: JsonTree<T>, after: JsonTree<T>) -> bool {
    if before is Array {
        &&& after is Array
        &&& after->Array_0@.len() == before->Array_0@.len()
        &&& forall|i: int|
            0 <= i < after->Array_0@.len() ==> tool_stripped(
                before->Array_0@[i],
                #[trigger] after->Array_0@[i],
            )
    } else {
        after == before
    }
}

proof fn lemma_field_at<T>(fields: Seq<(String, JsonTree<T>)>, name: Seq<char>, at: int)
    requires
        0 <= at <= fields.len(),
        forall|i: int| 0 <= i < at ==> (#[trigger] fields[i]).0@ != name,
        at < fields.len() ==> fields[at].0@ == name,
    ensures
        field_at(fields, name) == at,
    decreases at,
{
    if at > 0 {
        assert(fields[0].0@ != name);
        let rest = fields.skip(1);
        assert forall|i: int| 0 <= i < at - 1 implies (#[trigger] rest[i]).0@ != name by {
            assert(rest[i] == fields[i + 1]);
        }
        lemma_field_at(rest, name, at - 1);
    }
}

/// The position of the first field of a name.
fn find_field<T>(fields: &Vec<(String, JsonTree<T>)>, name: &str) -> (at: Option<usize>)
    ensures
        match at {
            Some(i) => i < fields@.len() && i == field_at(fields@, name@),
            None => field_at(fields@, name@) == fields@.len(),
        },
{
    let mut i: usize = 0;
    while i < fields.len()
        invariant
            i <= fields@.len(),
            forall|j: int| 0 <= j < i ==> (#[trigger] fields@[j]).0@ != name@,
        decreases fields@.len() - i,
    {
        if crate::text::same_text(fields[i].0.as_str(), name) {
            proof {
                lemma_field_at(fields@, name@, i as int);
            }
            return Some(i);
        }
        i = i + 1;
    }
    proof {
        lemma_field_at(fields@, name@, i as int);
    }
    None
}

fn remove_empty_description<T>(fields: &mut Vec<(String, JsonTree<T>)>)
    ensures
        final(fields)@ == cleaned(old(fields)@),
{
    if let Some(at) = find_field(fields, "description") {
        let empty: bool = match &fields[at].1 {
            JsonTree::Null => true,
            JsonTree::Text(text) => text.as_str().is_empty(),
            _ => false,
        };
        if empty {
            fields.remove(at);
        }
    }
}

fn strip_tool<T>(tool: JsonTree<T>) -> (after: JsonTree<T>)
    ensures
        tool_stripped(tool, after),
{
    let mut fields = match tool {
        JsonTree::Object(fields) => fields,
        other => {
            return other;
        },
    };
    let ghost before = fields@;
    if let Some(at) = find_field(&fields, "function") {
        let is_object: bool = match &fields[at].1 {
            JsonTree::Object(_) => true,
            _ => false,
        };
        if is_object {
            let (name, function) = fields.remove(at);
            let mut inner = match function {
                JsonTree::Object(inner) => inner,
                _ => Vec::new(),
            };
            remove_empty_description(&mut inner);
            let ghost added = (name, JsonTree::<T>::Object(inner));
            fields.insert(at, (name, JsonTree::Object(inner)));
            assert(fields@ =~= before.update(at as int, added));
        }
    }
    assert(function_cleaned(before, fields@));
    remove_empty_description(&mut fields);
    JsonTree::Object(fields)
}

/// Remove a tool `description` that is empty or null from each tool in a tools
/// array. Real, non-empty descriptions are kept verbatim and no other field is
/// touched, so upstream key ordering is preserved. Handles both the Chat
/// Completions shape (`description` under `function`) and the Responses tool
/// shape (top-level `description`).
pub fn strip_empty_tool_descriptions<T>(tools: JsonTree<T>) -> (after: JsonTree<T>)
    ensures
        tools_stripped(tools, after),
{
    let list = match tools {
        JsonTree::Array(list) => list,
        other => {
            return other;
        },
    };
    let ghost before = list@;
    let mut out: Vec<JsonTree<T>> = Vec::new();
    for tool in it: list
        invariant
            it.seq() == before,
            out@.len() == it.index(),
            forall|i: int|
                0 <= i < out@.len() ==> tool_stripped(before[i], #[trigger] out@[i]),
    {
        out.push(strip_tool(tool));
    }
    JsonTree::Array(out)
}

/// The tool declarations that a template sees: as they were fixed, or, where
/// `strip` asks for it, without descriptions that say nothing.
pub fn apply_k3_tool_description_policy<T>(fixed: JsonTree<T>, strip: bool) -> (after: JsonTree<T>)
    ensures
        strip ==> tools_stripped(fixed, after),
        !strip ==> after == fixed,
{
    if !strip {
        return fixed;
    }
    strip_empty_tool_descriptions(fixed)
}

/// A description that says something is kept, wherever it stands.
pub proof fn law_real_descriptions_are_kept<T>(fields: Seq<(String, JsonTree<T>)>)
    requires
        field_at(fields, "description"@) < fields.len(),
        !says_nothing(fields[field_at(fields, "description"@)].1),
    ensures
        cleaned(fields) == fields,
{
}

/// The prompt of a completion request.
#[derive(Debug)]
pub enum Prompt {
    IntegerArray(Vec<u32>),
    ArrayOfIntegerArray(Vec<Vec<u32>>),
    Text(String),
    TextArray(Vec<String>),
}

#[derive(Debug)]
pub enum TokenInput {
    Single(Vec<u32>),
    Batch(Vec<Vec<u32>>),
}

#[derive(Debug)]
pub enum TextInput {
    Single(String),
    Batch(Vec<String>),
}

/// What kind of input a prompt is.
#[derive(Debug, Clone, Copy, PartialEq, Eq, Structural)]
pub enum PromptInputKind {
    Tokens,
    TokenBatch,
    Text,
    TextBatch,
}

impl Prompt {
    pub fn prompt_input_type(&self) -> (kind: PromptInputKind)
        ensures
            kind == (match *self {
                Prompt::IntegerArray(_) => PromptInputKind::Tokens,
                Prompt::ArrayOfIntegerArray(_) => PromptInputKind::TokenBatch,
                Prompt::Text(_) => PromptInputKind::Text,
                Prompt::TextArray(_) => PromptInputKind::TextBatch,
            }),
    {
        match self {
            Prompt::IntegerArray(_) => PromptInputKind::Tokens,
            Prompt::ArrayOfIntegerArray(_) => PromptInputKind::TokenBatch,
            Prompt::Text(_) => PromptInputKind::Text,
            Prompt::TextArray(_) => PromptInputKind::TextBatch,
        }
    }

    /// The tokens of a prompt that is given in tokens.
    pub fn extract_tokens(self) -> (input: Option<TokenInput>)
        ensures
            input == (match self {
                Prompt::IntegerArray(tokens) => Some(TokenInput::Single(tokens)),
                Prompt::ArrayOfIntegerArray(arrays) => Some(TokenInput::Batch(arrays)),
                _ => None,
            }),
    {
        match self {
            Prompt::IntegerArray(tokens) => Some(TokenInput::Single(tokens)),
            Prompt::ArrayOfIntegerArray(arrays) => Some(TokenInput::Batch(arrays)),
            _ => None,
        }
    }

    /// The text of a prompt that is given in text.
    pub fn extract_text(self) -> (input: Option<TextInput>)
        ensures
            input == (match self {
                Prompt::Text(text) => Some(TextInput::Single(text)),
                Prompt::TextArray(texts) => Some(TextInput::Batch(texts)),
                _ => None,
            }),
    {
        match self {
            Prompt::Text(text) => Some(TextInput::Single(text)),
            Prompt::TextArray(texts) => Some(TextInput::Batch(texts)),
            _ => None,
        }
    }
}

/// Requests that may carry settings for reading their media. Kept apart from
/// rendering, so that a renderer need not know of media.
pub trait MediaRequestExt {
    type Decoder;

    fn media_io_kwargs(&self) -> Option<&Self::Decoder>;
}

impl MediaRequestExt for Prompt {
    type Decoder = ();

    /// A completion request has none.
    fn media_io_kwargs(&self) -> (decoder: Option<&()>)
        ensures
            decoder is None,
    {
        None
    }
}

/// What `str::to_lowercase` returns.
pub uninterp spec fn lowercase_of(text: Seq<char>) -> Seq<char>;

/// `str::to_lowercase`: the result depends on the text alone.
#[verifier::external_body]
fn to_lowercase(text: &str) -> (lower: String)
    ensures
        lower@ == lowercase_of(text@),
{
    text.to_lowercase()
}

/// The names by which a model family is recognised: the type that the model's
/// author set, unless it is empty, and the name under which it is served.
pub fn family_names(model_type: Option<&str>, display_name: &str) -> (names: (
    Option<String>,
    String,
))
    ensures
        names.1@ == lowercase_of(display_name@),
        names.0 is Some <==> model_type is Some && lowercase_of(model_type->Some_0@).len() > 0,
        names.0 is Some ==> names.0->Some_0@ == lowercase_of(model_type->Some_0@),
{
    let family: Option<String> = match model_type {
        Some(model_type) => Some(to_lowercase(model_type)),
        None => None,
    };
    (known_family(family), to_lowercase(display_name))
}

/// An empty model type carries no signal.
pub fn known_family(family: Option<String>) -> (known: Option<String>)
    ensures
        known == (if family is Some && family->Some_0@.len() > 0 {
            family
        } else {
            None
        }),
{
    match family {
        Some(family) => if family.as_str().is_empty() {
            None
        } else {
            Some(family)
        },
        None => None,
    }
}

/// A part of a model's deployment card. A file that is known only by its URL
/// has no path.
#[derive(Debug)]
pub enum PromptFormatterArtifact {
    HfTokenizerConfigJson { path: Option<String> },
    HfChatTemplateJinja { path: Option<String> },
    HfChatTemplateJson { path: Option<String> },
}

/// Why a model's template cannot be found.
#[derive(Debug)]
pub enum FormatterError {
    Missing,
    ConfigIsUrl { display_name: String },
    JinjaIsUrl { display_name: String },
    JsonIsUrl { display_name: String },
    WrongArtifact,
    TemplateNotJson { path: String },
    NoChatTemplate { path: String },
}

impl FormatterError {
    pub open spec fn text(self) -> Seq<char> {
        match self {
            FormatterError::Missing => "MDC does not contain a prompt formatter"@,
            FormatterError::ConfigIsUrl { display_name } => {
                "HfTokenizerConfigJson for "@ + display_name@ + " is a URL, cannot load"@
            },
            FormatterError::JinjaIsUrl { display_name } => {
                "HfChatTemplateJinja for "@ + display_name@ + " is a URL, cannot load"@
            },
            FormatterError::JsonIsUrl { display_name } => {
                "HfChatTemplateJson for "@ + display_name@ + " is a URL, cannot load"@
            },
            FormatterError::WrongArtifact => {
                "prompt_formatter should not have type HfChatTemplate*"@
            },
            FormatterError::TemplateNotJson { path } => {
                "Failed to parse '"@ + path@ + "' as JSON"@
            },
            FormatterError::NoChatTemplate { path } => {
                "'"@ + path@ + "' does not contain a 'chat_template' field"@
            },
        }
    }

    pub fn message(&self) -> (text: String)
        ensures
            text@ == self.text(),
    {
        match self {
            FormatterError::Missing => "MDC does not contain a prompt formatter".to_owned(),
            FormatterError::ConfigIsUrl { display_name } => {
                let mut text = "HfTokenizerConfigJson for ".to_owned();
                text.append(display_name.as_str());
                text.append(" is a URL, cannot load");
                text
            },
            FormatterError::JinjaIsUrl { display_name } => {
                let mut text = "HfChatTemplateJinja for ".to_owned();
                text.append(display_name.as_str());
                text.append(" is a URL, cannot load");
                text
            },
            FormatterError::JsonIsUrl { display_name } => {
                let mut text = "HfChatTemplateJson for ".to_owned();
                text.append(display_name.as_str());
                text.append(" is a URL, cannot load");
                text
            },
            FormatterError::WrongArtifact => {
                "prompt_formatter should not have type HfChatTemplate*".to_owned()
            },
            FormatterError::TemplateNotJson { path } => {
                let mut text = "Failed to parse '".to_owned();
                text.append(path.as_str());
                text.append("' as JSON");
                text
            },
            FormatterError::NoChatTemplate { path } => {
                let mut text = "'".to_owned();
                text.append(path.as_str());
                text.append("' does not contain a 'chat_template' field");
                text
            },
        }
    }
}

/// The file that holds a model's tokenizer configuration.
pub fn config_path(prompt_formatter: Option<PromptFormatterArtifact>, display_name: &str) -> (path:
    Result<String, FormatterError>)
    ensures
        match prompt_formatter {
            None => path is Err && path->Err_0 is Missing,
            Some(PromptFormatterArtifact::HfTokenizerConfigJson { path: Some(file) }) => path
                == Ok::<String, FormatterError>(file),
            Some(PromptFormatterArtifact::HfTokenizerConfigJson { path: None }) => {
                &&& path is Err
                &&& path->Err_0 is ConfigIsUrl
                &&& path->Err_0->ConfigIsUrl_display_name@ == display_name@
            },
            _ => path is Err && path->Err_0 is WrongArtifact,
        },
{
    match prompt_formatter {
        None => Err(FormatterError::Missing),
        Some(PromptFormatterArtifact::HfTokenizerConfigJson { path }) => match path {
            Some(file) => Ok(file),
            None => Err(FormatterError::ConfigIsUrl { display_name: display_name.to_owned() }),
        },
        Some(_) => Err(FormatterError::WrongArtifact),
    }
}

/// How the prompts of a model are formatted.
#[derive(Debug)]
pub enum FormatterChoice<F> {
    /// By a formatter made for the model's family.
    Native(F),
    /// By a template, under the tokenizer configuration in this file.
    Template(String),
}

/// Families whose models ship no template have a formatter of their own, which
/// goes before any template; `kimi` and `deepseek` are what the two families
/// offer for the model.
pub fn choose_formatter<F>(
    kimi: Option<F>,
    deepseek: Option<F>,
    prompt_formatter: Option<PromptFormatterArtifact>,
    display_name: &str,
) -> (choice: Result<FormatterChoice<F>, FormatterError>)
    ensures
        match (kimi, deepseek) {
            (Some(formatter), _) => choice == Ok::<FormatterChoice<F>, FormatterError>(
                FormatterChoice::Native(formatter),
            ),
            (None, Some(formatter)) => choice == Ok::<FormatterChoice<F>, FormatterError>(
                FormatterChoice::Native(formatter),
            ),
            (None, None) => match prompt_formatter {
                None => choice is Err && choice->Err_0 is Missing,
                Some(PromptFormatterArtifact::HfTokenizerConfigJson { path: Some(file) }) => choice
                    == Ok::<FormatterChoice<F>, FormatterError>(FormatterChoice::Template(file)),
                Some(PromptFormatterArtifact::HfTokenizerConfigJson { path: None }) => {
                    &&& choice is Err
                    &&& choice->Err_0 is ConfigIsUrl
                    &&& choice->Err_0->ConfigIsUrl_display_name@ == display_name@
                },
                _ => choice is Err && choice->Err_0 is WrongArtifact,
            },
        },
{
    if let Some(formatter) = kimi {
        return Ok(FormatterChoice::Native(formatter));
    }
    if let Some(formatter) = deepseek {
        return Ok(FormatterChoice::Native(formatter));
    }
    match config_path(prompt_formatter, display_name) {
        Ok(file) => Ok(FormatterChoice::Template(file)),
        Err(error) => Err(error),
    }
}

/// Where a model's chat template is.
#[derive(Debug)]
pub enum TemplateSource {
    /// In the tokenizer configuration itself.
    Config,
    /// In a file of its own.
    Jinja(String),
    /// In a field of a JSON file.
    Json(String),
}

/// Some models keep their template in a separate file, or it may be a custom
/// template.
pub fn template_source(chat_template_file: Option<PromptFormatterArtifact>, display_name: &str) -> (source:
    Result<TemplateSource, FormatterError>)
    ensures
        match chat_template_file {
            Some(PromptFormatterArtifact::HfChatTemplateJinja { path: Some(file) }) => source
                == Ok::<TemplateSource, FormatterError>(TemplateSource::Jinja(file)),
            Some(PromptFormatterArtifact::HfChatTemplateJinja { path: None }) => {
                &&& source is Err
                &&& source->Err_0 is JinjaIsUrl
                &&& source->Err_0->JinjaIsUrl_display_name@ == display_name@
            },
            Some(PromptFormatterArtifact::HfChatTemplateJson { path: Some(file) }) => source
                == Ok::<TemplateSource, FormatterError>(TemplateSource::Json(file)),
            Some(PromptFormatterArtifact::HfChatTemplateJson { path: None }) => {
                &&& source is Err
                &&& source->Err_0 is JsonIsUrl
                &&& source->Err_0->JsonIsUrl_display_name@ == display_name@
            },
            _ => source == Ok::<TemplateSource, FormatterError>(TemplateSource::Config),
        },
{
    match chat_template_file {
        Some(PromptFormatterArtifact::HfChatTemplateJinja { path }) => match path {
            Some(file) => Ok(TemplateSource::Jinja(file)),
            None => Err(FormatterError::JinjaIsUrl { display_name: display_name.to_owned() }),
        },
        Some(PromptFormatterArtifact::HfChatTemplateJson { path }) => match path {
            Some(file) => Ok(TemplateSource::Json(file)),
            None => Err(FormatterError::JsonIsUrl { display_name: display_name.to_owned() }),
        },
        _ => Ok(TemplateSource::Config),
    }
}

/// Why a file of its own gives no template.
#[derive(Debug, Clone, Copy, PartialEq, Eq, Structural)]
pub enum TemplateFileError {
    NotJson,
    NoChatTemplate,
}

impl TemplateFileError {
    /// The error with the file that it is about.
    pub fn in_file(self, path: &str) -> (error: FormatterError)
        ensures
            match self {
                TemplateFileError::NotJson => error is TemplateNotJson
                    && error->TemplateNotJson_path@ == path@,
                TemplateFileError::NoChatTemplate => error is NoChatTemplate
                    && error->NoChatTemplate_path@ == path@,
            },
    {
        match self {
            TemplateFileError::NotJson => FormatterError::TemplateNotJson { path: path.to_owned() },
            TemplateFileError::NoChatTemplate => FormatterError::NoChatTemplate {
                path: path.to_owned(),
            },
        }
    }
}

/// The position of the first field of a name in what an object says, or the
/// number of fields.
pub open spec fn says_at<T>(fields: Seq<(Seq<char>, JsonShape<T>)>, name: Seq<char>) -> int
    decreases fields.len(),
{
    if fields.len() == 0 || fields.first().0 == name {
        0
    } else {
        1 + says_at(fields.skip(1), name)
    }
}

/// What the chat template in a JSON value says.
pub open spec fn says_template<T>(json: JsonShape<T>) -> Option<JsonShape<T>> {
    match json {
        JsonShape::Object(fields) => if says_at(fields, "chat_template"@) < fields.len() {
            Some(fields[says_at(fields, "chat_template"@)].1)
        } else {
            None
        },
        _ => None,
    }
}

proof fn lemma_says_at<T>(fields: Seq<(String, JsonTree<T>)>, name: Seq<char>)
    ensures
        says_at(
            fields.map_values(|field: (String, JsonTree<T>)| (field.0@, crate::json::shape(field.1))),
            name,
        ) == field_at(fields, name),
    decreases fields.len(),
{
    let said = fields.map_values(
        |field: (String, JsonTree<T>)| (field.0@, crate::json::shape(field.1)),
    );
    if fields.len() > 0 && fields.first().0@ != name {
        lemma_says_at(fields.skip(1), name);
        assert(said.skip(1) =~= fields.skip(1).map_values(
            |field: (String, JsonTree<T>)| (field.0@, crate::json::shape(field.1)),
        ));
    }
}

/// The chat template in the JSON value of a file: the field of that name.
pub fn chat_template_of(tree: JsonTree<String>) -> (field: Result<
    JsonTree<String>,
    TemplateFileError,
>)
    ensures
        match tree {
            JsonTree::Object(fields) => field == (if field_at(fields@, "chat_template"@)
                < fields@.len() {
                Ok::<JsonTree<String>, TemplateFileError>(
                    fields@[field_at(fields@, "chat_template"@)].1,
                )
            } else {
                Err(TemplateFileError::NoChatTemplate)
            }),
            _ => field == Err::<JsonTree<String>, TemplateFileError>(
                TemplateFileError::NoChatTemplate,
            ),
        },
        match says_template(crate::json::shape(tree)) {
            Some(says) => field is Ok && crate::json::shape(field->Ok_0) == says,
            None => field == Err::<JsonTree<String>, TemplateFileError>(
                TemplateFileError::NoChatTemplate,
            ),
        },
{
    let mut fields = match tree {
        JsonTree::Object(fields) => fields,
        _ => {
            return Err(TemplateFileError::NoChatTemplate);
        },
    };
    proof {
        lemma_says_at(fields@, "chat_template"@);
        assert(crate::json::shape(tree)->Object_0 =~= fields@.map_values(
            |field: (String, JsonTree<String>)| (field.0@, crate::json::shape(field.1)),
        ));
    }
    match find_field(&fields, "chat_template") {
        Some(at) => Ok(fields.remove(at).1),
        None => Err(TemplateFileError::NoChatTemplate),
    }
}

/// The chat template in the text of a JSON file.
pub fn chat_template_in(text: &str) -> (field: Result<JsonTree<String>, TemplateFileError>)
    ensures
        match crate::json::json_of(text@) {
            None => field == Err::<JsonTree<String>, TemplateFileError>(TemplateFileError::NotJson),
            Some(json) => match says_template(json) {
                Some(says) => field is Ok && crate::json::shape(field->Ok_0) == says,
                None => field == Err::<JsonTree<String>, TemplateFileError>(
                    TemplateFileError::NoChatTemplate,
                ),
            },
        },
{
    match crate::json::parse_json(text) {
        Some(tree) => chat_template_of(tree),
        None => Err(TemplateFileError::NotJson),
    }
}

} // verus!
