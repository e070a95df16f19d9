//! Transfer objects that describe parameter providers: their groups, property
//! descriptors, allowable values, bundles and statuses.
use std::collections::HashMap;
use vstd::prelude::*;

verus! {

/// The binding of a parameter group to a parameter context.
#[derive(Debug)]
pub struct ParameterGroupConfigurationEntity {
    pub group_name: Option<String>,
    pub parameter_context_name: Option<String>,
    pub parameter_sensitivities: Option<HashMap<String, Option<String>>>,
    pub synchronized: Option<bool>,
}

/// The status of a parameter relative to a parameter context.
#[derive(Debug, PartialEq, Eq, Structural, Clone, Copy)]
pub enum StatusType {
    New,
    Changed,
    Removed,
    MissingButReferenced,
    Unchanged,
}

/// A bundle of extensions: group, artifact and version.
#[derive(Debug)]
pub struct BundleDTO {
    pub artifact: Option<String>,
    pub group: Option<String>,
    pub version: Option<String>,
}

/// A configurable property of a component.
#[derive(Debug)]
pub struct PropertyDescriptorDTO {
    pub allowable_values: Option<Vec<AllowableValueEntity>>,
    pub default_value: Option<String>,
    pub dependencies: Option<Vec<PropertyDependencyDTO>>,
    pub description: Option<String>,
    pub display_name: Option<String>,
    pub dynamic: Option<bool>,
    pub expression_language_scope: Option<String>,
    pub identifies_controller_service: Option<String>,
    pub identifies_controller_service_bundle: Option<BundleDTO>,
    pub name: Option<String>,
    pub required: Option<bool>,
    pub sensitive: Option<bool>,
    pub supports_el: Option<bool>,
}

/// A dependency of one property on the values of another.
#[derive(Debug)]
pub struct PropertyDependencyDTO {
    pub dependant_values: Option<Vec<String>>,
    pub property_name: Option<String>,
}

/// An allowable value with its reading permission.
#[derive(Debug)]
pub struct AllowableValueEntity {
    pub allowable_value: Option<AllowableValueDTO>,
    pub can_read: Option<bool>,
}

/// A value a property may take.
#[derive(Debug)]
pub struct AllowableValueDTO {
    pub description: Option<String>,
    pub display_name: Option<String>,
    pub value: Option<String>,
}

/// The validation status of a component.
#[derive(Debug, PartialEq, Eq, Structural, Clone, Copy)]
pub enum ValidationStatus {
    Valid,
    Invalid,
    Validating,
}

/// A component that references a parameter provider.
#[derive(Debug)]
pub struct ParameterProviderReferencingComponentDTO {
    pub id: Option<String>,
    pub name: Option<String>,
}

} // verus!
