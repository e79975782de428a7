//! A schema validation context: a compiled schema shared by validations.
use std::sync::Arc;
use vstd::prelude::*;

use crate::error::{count_overflow, StructuredError, ValidationError};
use crate::schema::CompiledSchema;
use crate::skeleton::{builds, overflows, DocumentSkeleton};
use crate::xml::{parse_events, tokens};
use crate::attr_pass::{attr_errors, attribute_errors};
use crate::two_pass::cap;
use crate::two_pass::{errors_view, TwoPassSchemaValidator};
use crate::validation::document_errors;

verus! {

/// Schema validation context: holds a compiled schema that any number of
/// documents are validated against.
pub struct XmlSchemaValidationContext {
    /// The shared schema.
    pub schema: Arc<CompiledSchema>,
}

impl XmlSchemaValidationContext {
    /// Creates a new validation context.
    pub fn new(schema: CompiledSchema) -> (c: XmlSchemaValidationContext)
        ensures
            *c.schema == schema,
    {
        XmlSchemaValidationContext { schema: Arc::new(schema) }
    }

    /// The strict, uncapped validator the context runs.
    pub open spec fn engine(&self) -> TwoPassSchemaValidator {
        TwoPassSchemaValidator {
            schema: self.schema,
            options: crate::two_pass::ValidationOptions {
                skip_min_occurs: false,
                skip_max_occurs: false,
                skip_substitution_groups: false,
                aggregate_errors: false,
            },
            mode: crate::mode::ValidationMode::Strict,
            max_errors: 0,
        }
    }

    /// Validates a document's text: every error of the element tree that
    /// its events build, then its start-tag, attribute and ID errors in document
    /// order, uncapped. Fails when the text is not well-formed, or
    /// when an element cannot be counted among its siblings.
    pub fn validate(&self, xml: &str) -> (r: Result<Vec<StructuredError>, ValidationError>)
        ensures
            match r {
                Ok(errors) => tokens(xml@) matches Some(es) && !overflows(es) && (exists|s: DocumentSkeleton|
                    #[trigger] builds(s, es)) && errors_view(errors@) == document_errors(self.engine(), es)
                    + attr_errors(*self.schema, es),
                Err(e) => match tokens(xml@) {
                    None => e is Syntax,
                    Some(es) => overflows(es) && count_overflow(e),
                },
            },
    {
        let validator = TwoPassSchemaValidator::new(self.schema.clone());
        let mut errors = match validator.validate(xml) {
            Ok(errors) => errors,
            Err(e) => return Err(e),
        };
        let events = match parse_events(xml) {
            Ok(events) => events,
            Err(e) => return Err(e),
        };
        let mut attrs = attribute_errors(&validator, &events);
        let ghost d = errors_view(errors@);
        errors.append(&mut attrs);
        proof {
            assert(cap(d, 0) == d);
        }
        Ok(errors)
    }
}

} // verus!
