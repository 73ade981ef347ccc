use vstd::prelude::*;

verus! {

/// Mathematical model of an error: each text payload as a sequence of
/// characters.
pub enum ErrV {
    IoError(Seq<char>, Seq<char>),
    ParseErrorGeneric(Seq<char>),
    ParseErrorNoContent(Seq<char>),
    ParseErrorUnclosedSectionTags(Seq<char>),
    ParseErrorInvalidEscapedVariableTag(Seq<char>),
    ParseErrorInvalidUnescapedVariableTag(Seq<char>),
    ParseErrorInvalidSectionEndTag(Seq<char>),
    ParseErrorMismatchedSectionEndTag(Seq<char>),
    ParseErrorInvalidCommentTag(Seq<char>),
    ParseErrorInvalidSectionStartTag(Seq<char>),
    ParseErrorInvalidInvertedSectionStartTag(Seq<char>),
    ParseErrorInvalidPartialTag(Seq<char>),
    LoaderErrorTemplateNotFound(Seq<char>),
    LoaderErrorNonUtf8FilePath(Seq<char>),
    ConfigErrorNonPositiveCacheSize,
    ConfigErrorInvalidTemplatesDirectory(Seq<char>),
    ConfigErrorTooManyTemplates,
    SerializationError,
}

/// Every error the engine can produce. The `String` in most variants
/// is the name of the template that produced the error, empty for an
/// anonymous template; `IoError` carries the name and a text naming
/// the kind of input or output failure; the two path-carrying loader
/// and configuration errors carry the offending path.
#[derive(Debug, Clone, PartialEq)]
pub enum MoostacheError {
    /// Reading a template source, or writing rendered output, failed.
    IoError(String, String),
    /// Parsing failed for some generic unidentifiable reason.
    ParseErrorGeneric(String),
    /// Parsing failed because the template was empty.
    ParseErrorNoContent(String),
    /// Not all sections opened in the template were closed.
    ParseErrorUnclosedSectionTags(String),
    /// Some escaped variable tag, e.g. {{ variable }}, was invalid.
    ParseErrorInvalidEscapedVariableTag(String),
    /// Some unescaped variable tag, e.g. {{{ variable }}}, was invalid.
    ParseErrorInvalidUnescapedVariableTag(String),
    /// Some section end tag, e.g. {{/ section }}, was invalid.
    ParseErrorInvalidSectionEndTag(String),
    /// Some section end tag does not match its section start tag,
    /// e.g. {{# section1 }} ... {{/ section2 }}.
    ParseErrorMismatchedSectionEndTag(String),
    /// Some comment tag, e.g. {{! comment }}, is invalid.
    ParseErrorInvalidCommentTag(String),
    /// Some section start tag, e.g. {{# section }}, is invalid.
    ParseErrorInvalidSectionStartTag(String),
    /// Some inverted section start tag, e.g. {{^ section }}, is invalid.
    ParseErrorInvalidInvertedSectionStartTag(String),
    /// Some partial tag, e.g. {{> partial }}, is invalid.
    ParseErrorInvalidPartialTag(String),
    /// A loader was asked for a template it does not know by name.
    LoaderErrorTemplateNotFound(String),
    /// A template file's path was not valid UTF-8.
    LoaderErrorNonUtf8FilePath(String),
    /// The cache size of a loader configuration must be greater than
    /// zero.
    ConfigErrorNonPositiveCacheSize,
    /// The templates directory of a loader configuration is not a
    /// directory.
    ConfigErrorInvalidTemplatesDirectory(String),
    /// A directory held more templates than the configured cache size
    /// allows to be loaded eagerly.
    ConfigErrorTooManyTemplates,
    /// Turning user-supplied data into the engine's value model
    /// failed.
    SerializationError,
}

impl View for MoostacheError {
    type V = ErrV;

    open spec fn view(&self) -> ErrV {
        match self {
            MoostacheError::IoError(s, k) => ErrV::IoError(s@, k@),
            MoostacheError::ParseErrorGeneric(s) => ErrV::ParseErrorGeneric(s@),
            MoostacheError::ParseErrorNoContent(s) => ErrV::ParseErrorNoContent(s@),
            MoostacheError::ParseErrorUnclosedSectionTags(s) => ErrV::ParseErrorUnclosedSectionTags(
                s@,
            ),
            MoostacheError::ParseErrorInvalidEscapedVariableTag(
                s,
            ) => ErrV::ParseErrorInvalidEscapedVariableTag(s@),
            MoostacheError::ParseErrorInvalidUnescapedVariableTag(
                s,
            ) => ErrV::ParseErrorInvalidUnescapedVariableTag(s@),
            MoostacheError::ParseErrorInvalidSectionEndTag(
                s,
            ) => ErrV::ParseErrorInvalidSectionEndTag(s@),
            MoostacheError::ParseErrorMismatchedSectionEndTag(
                s,
            ) => ErrV::ParseErrorMismatchedSectionEndTag(s@),
            MoostacheError::ParseErrorInvalidCommentTag(s) => ErrV::ParseErrorInvalidCommentTag(s@),
            MoostacheError::ParseErrorInvalidSectionStartTag(
                s,
            ) => ErrV::ParseErrorInvalidSectionStartTag(s@),
            MoostacheError::ParseErrorInvalidInvertedSectionStartTag(
                s,
            ) => ErrV::ParseErrorInvalidInvertedSectionStartTag(s@),
            MoostacheError::ParseErrorInvalidPartialTag(s) => ErrV::ParseErrorInvalidPartialTag(s@),
            MoostacheError::LoaderErrorTemplateNotFound(s) => ErrV::LoaderErrorTemplateNotFound(s@),
            MoostacheError::LoaderErrorNonUtf8FilePath(s) => ErrV::LoaderErrorNonUtf8FilePath(s@),
            MoostacheError::ConfigErrorNonPositiveCacheSize => ErrV::ConfigErrorNonPositiveCacheSize,
            MoostacheError::ConfigErrorInvalidTemplatesDirectory(
                s,
            ) => ErrV::ConfigErrorInvalidTemplatesDirectory(s@),
            MoostacheError::ConfigErrorTooManyTemplates => ErrV::ConfigErrorTooManyTemplates,
            MoostacheError::SerializationError => ErrV::SerializationError,
        }
    }
}

/// Whether an error carries a template name that `set_name` may
/// replace: every parse error, the input-output error, and the
/// not-found loader error.
pub open spec fn spec_carries_name(e: ErrV) -> bool {
    match e {
        ErrV::IoError(_, _) => true,
        ErrV::ParseErrorGeneric(_) => true,
        ErrV::ParseErrorNoContent(_) => true,
        ErrV::ParseErrorUnclosedSectionTags(_) => true,
        ErrV::ParseErrorInvalidEscapedVariableTag(_) => true,
        ErrV::ParseErrorInvalidUnescapedVariableTag(_) => true,
        ErrV::ParseErrorInvalidSectionEndTag(_) => true,
        ErrV::ParseErrorMismatchedSectionEndTag(_) => true,
        ErrV::ParseErrorInvalidCommentTag(_) => true,
        ErrV::ParseErrorInvalidSectionStartTag(_) => true,
        ErrV::ParseErrorInvalidInvertedSectionStartTag(_) => true,
        ErrV::ParseErrorInvalidPartialTag(_) => true,
        ErrV::LoaderErrorTemplateNotFound(_) => true,
        _ => false,
    }
}

/// The same error with its template name replaced.
pub open spec fn spec_with_name(e: ErrV, name: Seq<char>) -> ErrV {
    match e {
        ErrV::IoError(_, k) => ErrV::IoError(name, k),
        ErrV::ParseErrorGeneric(_) => ErrV::ParseErrorGeneric(name),
        ErrV::ParseErrorNoContent(_) => ErrV::ParseErrorNoContent(name),
        ErrV::ParseErrorUnclosedSectionTags(_) => ErrV::ParseErrorUnclosedSectionTags(name),
        ErrV::ParseErrorInvalidEscapedVariableTag(_) => ErrV::ParseErrorInvalidEscapedVariableTag(
            name,
        ),
        ErrV::ParseErrorInvalidUnescapedVariableTag(
            _,
        ) => ErrV::ParseErrorInvalidUnescapedVariableTag(name),
        ErrV::ParseErrorInvalidSectionEndTag(_) => ErrV::ParseErrorInvalidSectionEndTag(name),
        ErrV::ParseErrorMismatchedSectionEndTag(_) => ErrV::ParseErrorMismatchedSectionEndTag(name),
        ErrV::ParseErrorInvalidCommentTag(_) => ErrV::ParseErrorInvalidCommentTag(name),
        ErrV::ParseErrorInvalidSectionStartTag(_) => ErrV::ParseErrorInvalidSectionStartTag(name),
        ErrV::ParseErrorInvalidInvertedSectionStartTag(
            _,
        ) => ErrV::ParseErrorInvalidInvertedSectionStartTag(name),
        ErrV::ParseErrorInvalidPartialTag(_) => ErrV::ParseErrorInvalidPartialTag(name),
        ErrV::LoaderErrorTemplateNotFound(_) => ErrV::LoaderErrorTemplateNotFound(name),
        _ => e,
    }
}

impl MoostacheError {
    /// This error with its template name replaced, for the loader
    /// layer to attach the owning template's name to a parse error
    /// raised with an empty one.
    pub fn set_name(self, name: &str) -> (r: MoostacheError)
        requires
            spec_carries_name(self@),
        ensures
            r@ == spec_with_name(self@, name@),
    {
        let n = String::from_str(name);
        match self {
            MoostacheError::IoError(_, k) => MoostacheError::IoError(n, k),
            MoostacheError::ParseErrorGeneric(_) => MoostacheError::ParseErrorGeneric(n),
            MoostacheError::ParseErrorNoContent(_) => MoostacheError::ParseErrorNoContent(n),
            MoostacheError::ParseErrorUnclosedSectionTags(
                _,
            ) => MoostacheError::ParseErrorUnclosedSectionTags(n),
            MoostacheError::ParseErrorInvalidEscapedVariableTag(
                _,
            ) => MoostacheError::ParseErrorInvalidEscapedVariableTag(n),
            MoostacheError::ParseErrorInvalidUnescapedVariableTag(
                _,
            ) => MoostacheError::ParseErrorInvalidUnescapedVariableTag(n),
            MoostacheError::ParseErrorInvalidSectionEndTag(
                _,
            ) => MoostacheError::ParseErrorInvalidSectionEndTag(n),
            MoostacheError::ParseErrorMismatchedSectionEndTag(
                _,
            ) => MoostacheError::ParseErrorMismatchedSectionEndTag(n),
            MoostacheError::ParseErrorInvalidCommentTag(
                _,
            ) => MoostacheError::ParseErrorInvalidCommentTag(n),
            MoostacheError::ParseErrorInvalidSectionStartTag(
                _,
            ) => MoostacheError::ParseErrorInvalidSectionStartTag(n),
            MoostacheError::ParseErrorInvalidInvertedSectionStartTag(
                _,
            ) => MoostacheError::ParseErrorInvalidInvertedSectionStartTag(n),
            MoostacheError::ParseErrorInvalidPartialTag(
                _,
            ) => MoostacheError::ParseErrorInvalidPartialTag(n),
            MoostacheError::LoaderErrorTemplateNotFound(
                _,
            ) => MoostacheError::LoaderErrorTemplateNotFound(n),
            _ => self,
        }
    }
}

/// A template name as it reads in an error message: `anonymous` when
/// empty, quoted otherwise.
pub open spec fn spec_name_text(name: Seq<char>) -> Seq<char> {
    if name.len() == 0 {
        "anonymous"@
    } else {
        "\""@ + name + "\""@
    }
}

/// The message an error reads as.
pub open spec fn spec_message(e: ErrV) -> Seq<char> {
    match e {
        ErrV::ParseErrorGeneric(s) => "error parsing "@ + spec_name_text(s) + " template"@,
        ErrV::ParseErrorNoContent(s) => "error parsing "@ + spec_name_text(s)
            + " template: empty template"@,
        ErrV::ParseErrorUnclosedSectionTags(s) => "error parsing "@ + spec_name_text(s)
            + " template: unclosed section tags"@,
        ErrV::ParseErrorInvalidEscapedVariableTag(s) => "error parsing "@ + spec_name_text(s)
            + " template: invalid escaped variable tag, expected {{ variable }}"@,
        ErrV::ParseErrorInvalidUnescapedVariableTag(s) => "error parsing "@ + spec_name_text(s)
            + " template: invalid unescaped variable tag, expected {{{ variable }}}"@,
        ErrV::ParseErrorInvalidSectionEndTag(s) => "error parsing "@ + spec_name_text(s)
            + " template: invalid section eng tag, expected {{/ section }}"@,
        ErrV::ParseErrorMismatchedSectionEndTag(s) => "error parsing "@ + spec_name_text(s)
            + " template: mismatched section eng tag, expected {{# section }} ... {{/ section }}"@,
        ErrV::ParseErrorInvalidCommentTag(s) => "error parsing "@ + spec_name_text(s)
            + " template: invalid comment tag, expected {{! comment }}"@,
        ErrV::ParseErrorInvalidSectionStartTag(s) => "error parsing "@ + spec_name_text(s)
            + " template: invalid section start tag, expected {{# section }}"@,
        ErrV::ParseErrorInvalidInvertedSectionStartTag(s) => "error parsing "@ + spec_name_text(s)
            + " template: invalid inverted section start tag, expected {{^ section }}"@,
        ErrV::ParseErrorInvalidPartialTag(s) => "error parsing "@ + spec_name_text(s)
            + " template: invalid partial tag, expected {{> partial }}"@,
        ErrV::IoError(s, kind) => "error reading "@ + spec_name_text(s) + " template: "@ + kind,
        ErrV::LoaderErrorTemplateNotFound(s) => "loader error: "@ + spec_name_text(s)
            + " template not found"@,
        ErrV::LoaderErrorNonUtf8FilePath(p) => "loader error: can't load non-utf8 file path: "@
            + p,
        ErrV::ConfigErrorNonPositiveCacheSize => "config error: cache size must be positive"@,
        ErrV::ConfigErrorInvalidTemplatesDirectory(
            p,
        ) => "config error: invalid templates directory: "@ + p,
        ErrV::ConfigErrorTooManyTemplates => "config error: templates in directory exceeds cache size"@,
        ErrV::SerializationError => "serialization error: could not serialize data to serde_json::Value"@,
    }
}

fn name_text(name: &str) -> (r: String)
    ensures
        r@ == spec_name_text(name@),
{
    if name.is_empty() {
        String::from_str("anonymous")
    } else {
        let mut quoted = String::from_str("\"");
        quoted.append(name);
        quoted.append("\"");
        quoted
    }
}

impl MoostacheError {
    /// The message this error reads as, naming the template where
    /// one is known.
    pub fn message(&self) -> (r: String)
        ensures
            r@ == spec_message(self@),
    {
        match self {
            MoostacheError::ParseErrorGeneric(s) => {
                let mut m = String::from_str("error parsing ");
                m.append(name_text(s.as_str()).as_str());
                m.append(" template");
                m
            },
            MoostacheError::ParseErrorNoContent(s) => {
                let mut m = String::from_str("error parsing ");
                m.append(name_text(s.as_str()).as_str());
                m.append(" template: empty template");
                m
            },
            MoostacheError::ParseErrorUnclosedSectionTags(s) => {
                let mut m = String::from_str("error parsing ");
                m.append(name_text(s.as_str()).as_str());
                m.append(" template: unclosed section tags");
                m
            },
            MoostacheError::ParseErrorInvalidEscapedVariableTag(s) => {
                let mut m = String::from_str("error parsing ");
                m.append(name_text(s.as_str()).as_str());
                m.append(" template: invalid escaped variable tag, expected {{ variable }}");
                m
            },
            MoostacheError::ParseErrorInvalidUnescapedVariableTag(s) => {
                let mut m = String::from_str("error parsing ");
                m.append(name_text(s.as_str()).as_str());
                m.append(" template: invalid unescaped variable tag, expected {{{ variable }}}");
                m
            },
            MoostacheError::ParseErrorInvalidSectionEndTag(s) => {
                let mut m = String::from_str("error parsing ");
                m.append(name_text(s.as_str()).as_str());
                m.append(" template: invalid section eng tag, expected {{/ section }}");
                m
            },
            MoostacheError::ParseErrorMismatchedSectionEndTag(s) => {
                let mut m = String::from_str("error parsing ");
                m.append(name_text(s.as_str()).as_str());
                m.append(
                    " template: mismatched section eng tag, expected {{# section }} ... {{/ section }}",
                );
                m
            },
            MoostacheError::ParseErrorInvalidCommentTag(s) => {
                let mut m = String::from_str("error parsing ");
                m.append(name_text(s.as_str()).as_str());
                m.append(" template: invalid comment tag, expected {{! comment }}");
                m
            },
            MoostacheError::ParseErrorInvalidSectionStartTag(s) => {
                let mut m = String::from_str("error parsing ");
                m.append(name_text(s.as_str()).as_str());
                m.append(" template: invalid section start tag, expected {{# section }}");
                m
            },
            MoostacheError::ParseErrorInvalidInvertedSectionStartTag(s) => {
                let mut m = String::from_str("error parsing ");
                m.append(name_text(s.as_str()).as_str());
                m.append(" template: invalid inverted section start tag, expected {{^ section }}");
                m
            },
            MoostacheError::ParseErrorInvalidPartialTag(s) => {
                let mut m = String::from_str("error parsing ");
                m.append(name_text(s.as_str()).as_str());
                m.append(" template: invalid partial tag, expected {{> partial }}");
                m
            },
            MoostacheError::IoError(s, kind) => {
                let mut m = String::from_str("error reading ");
                m.append(name_text(s.as_str()).as_str());
                m.append(" template: ");
                m.append(kind.as_str());
                m
            },
            MoostacheError::LoaderErrorTemplateNotFound(s) => {
                let mut m = String::from_str("loader error: ");
                m.append(name_text(s.as_str()).as_str());
                m.append(" template not found");
                m
            },
            MoostacheError::LoaderErrorNonUtf8FilePath(p) => {
                let mut m = String::from_str("loader error: can't load non-utf8 file path: ");
                m.append(p.as_str());
                m
            },
            MoostacheError::ConfigErrorNonPositiveCacheSize => {
                String::from_str("config error: cache size must be positive")
            },
            MoostacheError::ConfigErrorInvalidTemplatesDirectory(p) => {
                let mut m = String::from_str("config error: invalid templates directory: ");
                m.append(p.as_str());
                m
            },
            MoostacheError::ConfigErrorTooManyTemplates => {
                String::from_str("config error: templates in directory exceeds cache size")
            },
            MoostacheError::SerializationError => {
                String::from_str("serialization error: could not serialize data to serde_json::Value")
            },
        }
    }
}

} // verus!
