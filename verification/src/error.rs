//! The error taxonomy of the store. Each rejected condition has its own
//! variant; contracts state exactly when each one is produced.
use vstd::prelude::*;

use crate::models::ForeignKeyType;

verus! {

#[derive(Debug)]
pub enum DawnStoreError {
    InvalidRootInputObject,
    InternalServerError(String),
    InvalidInputObjectMissingKindField,
    InvalidInputObjectMissingListFieldOfList,
    DeserialisationError(String),
    KindMissingInObject,
    ApiVersionMissingInObject,
    ForeignKeyNotFound(String),
    NoSchemaForObjectFound { api_version: String, kind: String },
    DatabaseError(String),
    JsonSchemaValidatorCreationError(String),
    ObjectValidationError {
        api_version: String,
        kind: String,
        name: String,
        validation_error: String,
    },
    ObjectValidationMissingForeignKeyEntry {
        api_version: String,
        kind: String,
        name: String,
        foreign_key_path: String,
        foreign_key_type: ForeignKeyType,
    },
    ObjectValidationWrongForeignKeyEntryFormat {
        api_version: String,
        kind: String,
        name: String,
        foreign_key_path: String,
        foreign_key_type: ForeignKeyType,
        value: String,
    },
    ObjectValidationWrongForeignKeyEntryKind {
        api_version: String,
        kind: String,
        name: String,
        foreign_key_path: String,
        foreign_key_type: ForeignKeyType,
        value: String,
    },
    ObjectValidationForeignKeyNotFound {
        api_version: String,
        kind: String,
        name: String,
        value: String,
    },
}

/// Mathematical view of an error.
pub enum ErrV {
    InvalidRootInputObject,
    InternalServerError(Seq<char>),
    InvalidInputObjectMissingKindField,
    InvalidInputObjectMissingListFieldOfList,
    DeserialisationError(Seq<char>),
    KindMissingInObject,
    ApiVersionMissingInObject,
    ForeignKeyNotFound(Seq<char>),
    NoSchemaForObjectFound { api_version: Seq<char>, kind: Seq<char> },
    DatabaseError(Seq<char>),
    JsonSchemaValidatorCreationError(Seq<char>),
    ObjectValidationError {
        api_version: Seq<char>,
        kind: Seq<char>,
        name: Seq<char>,
        validation_error: Seq<char>,
    },
    ObjectValidationMissingForeignKeyEntry {
        api_version: Seq<char>,
        kind: Seq<char>,
        name: Seq<char>,
        foreign_key_path: Seq<char>,
        foreign_key_type: ForeignKeyType,
    },
    ObjectValidationWrongForeignKeyEntryFormat {
        api_version: Seq<char>,
        kind: Seq<char>,
        name: Seq<char>,
        foreign_key_path: Seq<char>,
        foreign_key_type: ForeignKeyType,
        value: Seq<char>,
    },
    ObjectValidationWrongForeignKeyEntryKind {
        api_version: Seq<char>,
        kind: Seq<char>,
        name: Seq<char>,
        foreign_key_path: Seq<char>,
        foreign_key_type: ForeignKeyType,
        value: Seq<char>,
    },
    ObjectValidationForeignKeyNotFound {
        api_version: Seq<char>,
        kind: Seq<char>,
        name: Seq<char>,
        value: Seq<char>,
    },
}

impl View for DawnStoreError {
    type V = ErrV;

    open spec fn view(&self) -> ErrV {
        match self {
            DawnStoreError::InvalidRootInputObject => ErrV::InvalidRootInputObject,
            DawnStoreError::InternalServerError(s) => ErrV::InternalServerError(s@),
            DawnStoreError::InvalidInputObjectMissingKindField => ErrV::InvalidInputObjectMissingKindField,
            DawnStoreError::InvalidInputObjectMissingListFieldOfList => ErrV::InvalidInputObjectMissingListFieldOfList,
            DawnStoreError::DeserialisationError(s) => ErrV::DeserialisationError(s@),
            DawnStoreError::KindMissingInObject => ErrV::KindMissingInObject,
            DawnStoreError::ApiVersionMissingInObject => ErrV::ApiVersionMissingInObject,
            DawnStoreError::ForeignKeyNotFound(s) => ErrV::ForeignKeyNotFound(s@),
            DawnStoreError::NoSchemaForObjectFound { api_version, kind } => ErrV::NoSchemaForObjectFound {
                api_version: api_version@,
                kind: kind@,
            },
            DawnStoreError::DatabaseError(s) => ErrV::DatabaseError(s@),
            DawnStoreError::JsonSchemaValidatorCreationError(s) => ErrV::JsonSchemaValidatorCreationError(s@),
            DawnStoreError::ObjectValidationError { api_version, kind, name, validation_error } => ErrV::ObjectValidationError {
                api_version: api_version@,
                kind: kind@,
                name: name@,
                validation_error: validation_error@,
            },
            DawnStoreError::ObjectValidationMissingForeignKeyEntry {
                api_version,
                kind,
                name,
                foreign_key_path,
                foreign_key_type,
            } => ErrV::ObjectValidationMissingForeignKeyEntry {
                api_version: api_version@,
                kind: kind@,
                name: name@,
                foreign_key_path: foreign_key_path@,
                foreign_key_type: *foreign_key_type,
            },
            DawnStoreError::ObjectValidationWrongForeignKeyEntryFormat {
                api_version,
                kind,
                name,
                foreign_key_path,
                foreign_key_type,
                value,
            } => ErrV::ObjectValidationWrongForeignKeyEntryFormat {
                api_version: api_version@,
                kind: kind@,
                name: name@,
                foreign_key_path: foreign_key_path@,
                foreign_key_type: *foreign_key_type,
                value: value@,
            },
            DawnStoreError::ObjectValidationWrongForeignKeyEntryKind {
                api_version,
                kind,
                name,
                foreign_key_path,
                foreign_key_type,
                value,
            } => ErrV::ObjectValidationWrongForeignKeyEntryKind {
                api_version: api_version@,
                kind: kind@,
                name: name@,
                foreign_key_path: foreign_key_path@,
                foreign_key_type: *foreign_key_type,
                value: value@,
            },
            DawnStoreError::ObjectValidationForeignKeyNotFound { api_version, kind, name, value } => ErrV::ObjectValidationForeignKeyNotFound {
                api_version: api_version@,
                kind: kind@,
                name: name@,
                value: value@,
            },
        }
    }
}

} // verus!
