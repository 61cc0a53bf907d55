use vstd::prelude::*;
use vstd::view::View as _;
use crate::model::{ElementKind, Relationship};
use crate::text::{ieq, eq_ignore_case, seq_eq, has_prefix, has_suffix, starts_with, chars_of, string_of, trim, trim_ws};
use crate::chars::{is_whitespace, unicode_whitespace};

verus! {

/// An ArchiMate element type: its DSL keyword, its native Archi name, the Archi folder it
/// belongs to, its layer and its structural role; junctions may carry a kind.
#[derive(Debug, Clone, Copy, PartialEq, Eq)]
pub struct ArchiMateElementType {
    pub keyword: &'static str,
    pub native: &'static str,
    pub folder: &'static str,
    pub layer: &'static str,
    pub role: &'static str,
    pub junction_kind: Option<&'static str>,
}

/// An ArchiMate relationship type: DSL keyword, native Archi name, Open Group exchange name
/// and family.
#[derive(Debug, Clone, Copy, PartialEq, Eq)]
pub struct ArchiMateRelationshipType {
    pub keyword: &'static str,
    pub native: &'static str,
    pub open_group: &'static str,
    pub family: &'static str,
}

/// The ArchiMate element types, in the order lookups search them.
pub open spec fn element_types() -> Seq<ArchiMateElementType> {
    seq![
        ArchiMateElementType { keyword: "resource", native: "Resource", folder: "strategy", layer: "strategy", role: "active", junction_kind: None },
        ArchiMateElementType { keyword: "capability", native: "Capability", folder: "strategy", layer: "strategy", role: "behavior", junction_kind: None },
        ArchiMateElementType { keyword: "valueStream", native: "ValueStream", folder: "strategy", layer: "strategy", role: "behavior", junction_kind: None },
        ArchiMateElementType { keyword: "courseOfAction", native: "CourseOfAction", folder: "strategy", layer: "strategy", role: "behavior", junction_kind: None },
        ArchiMateElementType { keyword: "businessActor", native: "BusinessActor", folder: "business", layer: "business", role: "active", junction_kind: None },
        ArchiMateElementType { keyword: "businessRole", native: "BusinessRole", folder: "business", layer: "business", role: "active", junction_kind: None },
        ArchiMateElementType { keyword: "businessCollaboration", native: "BusinessCollaboration", folder: "business", layer: "business", role: "active", junction_kind: None },
        ArchiMateElementType { keyword: "businessInterface", native: "BusinessInterface", folder: "business", layer: "business", role: "active", junction_kind: None },
        ArchiMateElementType { keyword: "businessProcess", native: "BusinessProcess", folder: "business", layer: "business", role: "behavior", junction_kind: None },
        ArchiMateElementType { keyword: "businessFunction", native: "BusinessFunction", folder: "business", layer: "business", role: "behavior", junction_kind: None },
        ArchiMateElementType { keyword: "businessInteraction", native: "BusinessInteraction", folder: "business", layer: "business", role: "behavior", junction_kind: None },
        ArchiMateElementType { keyword: "businessEvent", native: "BusinessEvent", folder: "business", layer: "business", role: "behavior", junction_kind: None },
        ArchiMateElementType { keyword: "businessService", native: "BusinessService", folder: "business", layer: "business", role: "behavior", junction_kind: None },
        ArchiMateElementType { keyword: "businessObject", native: "BusinessObject", folder: "business", layer: "business", role: "passive", junction_kind: None },
        ArchiMateElementType { keyword: "contract", native: "Contract", folder: "business", layer: "business", role: "passive", junction_kind: None },
        ArchiMateElementType { keyword: "representation", native: "Representation", folder: "business", layer: "business", role: "passive", junction_kind: None },
        ArchiMateElementType { keyword: "product", native: "Product", folder: "business", layer: "business", role: "passive", junction_kind: None },
        ArchiMateElementType { keyword: "applicationComponent", native: "ApplicationComponent", folder: "application", layer: "application", role: "active", junction_kind: None },
        ArchiMateElementType { keyword: "applicationCollaboration", native: "ApplicationCollaboration", folder: "application", layer: "application", role: "active", junction_kind: None },
        ArchiMateElementType { keyword: "applicationInterface", native: "ApplicationInterface", folder: "application", layer: "application", role: "active", junction_kind: None },
        ArchiMateElementType { keyword: "applicationFunction", native: "ApplicationFunction", folder: "application", layer: "application", role: "behavior", junction_kind: None },
        ArchiMateElementType { keyword: "applicationInteraction", native: "ApplicationInteraction", folder: "application", layer: "application", role: "behavior", junction_kind: None },
        ArchiMateElementType { keyword: "applicationProcess", native: "ApplicationProcess", folder: "application", layer: "application", role: "behavior", junction_kind: None },
        ArchiMateElementType { keyword: "applicationEvent", native: "ApplicationEvent", folder: "application", layer: "application", role: "behavior", junction_kind: None },
        ArchiMateElementType { keyword: "applicationService", native: "ApplicationService", folder: "application", layer: "application", role: "behavior", junction_kind: None },
        ArchiMateElementType { keyword: "dataObject", native: "DataObject", folder: "application", layer: "application", role: "passive", junction_kind: None },
        ArchiMateElementType { keyword: "node", native: "Node", folder: "technology", layer: "technology", role: "active", junction_kind: None },
        ArchiMateElementType { keyword: "device", native: "Device", folder: "technology", layer: "technology", role: "active", junction_kind: None },
        ArchiMateElementType { keyword: "systemSoftware", native: "SystemSoftware", folder: "technology", layer: "technology", role: "active", junction_kind: None },
        ArchiMateElementType { keyword: "technologyCollaboration", native: "TechnologyCollaboration", folder: "technology", layer: "technology", role: "active", junction_kind: None },
        ArchiMateElementType { keyword: "technologyInterface", native: "TechnologyInterface", folder: "technology", layer: "technology", role: "active", junction_kind: None },
        ArchiMateElementType { keyword: "path", native: "Path", folder: "technology", layer: "technology", role: "active", junction_kind: None },
        ArchiMateElementType { keyword: "communicationNetwork", native: "CommunicationNetwork", folder: "technology", layer: "technology", role: "active", junction_kind: None },
        ArchiMateElementType { keyword: "technologyFunction", native: "TechnologyFunction", folder: "technology", layer: "technology", role: "behavior", junction_kind: None },
        ArchiMateElementType { keyword: "technologyProcess", native: "TechnologyProcess", folder: "technology", layer: "technology", role: "behavior", junction_kind: None },
        ArchiMateElementType { keyword: "technologyInteraction", native: "TechnologyInteraction", folder: "technology", layer: "technology", role: "behavior", junction_kind: None },
        ArchiMateElementType { keyword: "technologyEvent", native: "TechnologyEvent", folder: "technology", layer: "technology", role: "behavior", junction_kind: None },
        ArchiMateElementType { keyword: "technologyService", native: "TechnologyService", folder: "technology", layer: "technology", role: "behavior", junction_kind: None },
        ArchiMateElementType { keyword: "artifact", native: "Artifact", folder: "technology", layer: "technology", role: "passive", junction_kind: None },
        ArchiMateElementType { keyword: "equipment", native: "Equipment", folder: "technology", layer: "physical", role: "active", junction_kind: None },
        ArchiMateElementType { keyword: "facility", native: "Facility", folder: "technology", layer: "physical", role: "active", junction_kind: None },
        ArchiMateElementType { keyword: "distributionNetwork", native: "DistributionNetwork", folder: "technology", layer: "physical", role: "active", junction_kind: None },
        ArchiMateElementType { keyword: "material", native: "Material", folder: "technology", layer: "physical", role: "passive", junction_kind: None },
        ArchiMateElementType { keyword: "stakeholder", native: "Stakeholder", folder: "motivation", layer: "motivation", role: "motivation", junction_kind: None },
        ArchiMateElementType { keyword: "driver", native: "Driver", folder: "motivation", layer: "motivation", role: "motivation", junction_kind: None },
        ArchiMateElementType { keyword: "assessment", native: "Assessment", folder: "motivation", layer: "motivation", role: "motivation", junction_kind: None },
        ArchiMateElementType { keyword: "goal", native: "Goal", folder: "motivation", layer: "motivation", role: "motivation", junction_kind: None },
        ArchiMateElementType { keyword: "outcome", native: "Outcome", folder: "motivation", layer: "motivation", role: "motivation", junction_kind: None },
        ArchiMateElementType { keyword: "principle", native: "Principle", folder: "motivation", layer: "motivation", role: "motivation", junction_kind: None },
        ArchiMateElementType { keyword: "requirement", native: "Requirement", folder: "motivation", layer: "motivation", role: "motivation", junction_kind: None },
        ArchiMateElementType { keyword: "constraint", native: "Constraint", folder: "motivation", layer: "motivation", role: "motivation", junction_kind: None },
        ArchiMateElementType { keyword: "meaning", native: "Meaning", folder: "motivation", layer: "motivation", role: "motivation", junction_kind: None },
        ArchiMateElementType { keyword: "value", native: "Value", folder: "motivation", layer: "motivation", role: "motivation", junction_kind: None },
        ArchiMateElementType { keyword: "workPackage", native: "WorkPackage", folder: "implementation_migration", layer: "implementation_migration", role: "implementation", junction_kind: None },
        ArchiMateElementType { keyword: "deliverable", native: "Deliverable", folder: "implementation_migration", layer: "implementation_migration", role: "implementation", junction_kind: None },
        ArchiMateElementType { keyword: "implementationEvent", native: "ImplementationEvent", folder: "implementation_migration", layer: "implementation_migration", role: "implementation", junction_kind: None },
        ArchiMateElementType { keyword: "plateau", native: "Plateau", folder: "implementation_migration", layer: "implementation_migration", role: "implementation", junction_kind: None },
        ArchiMateElementType { keyword: "gap", native: "Gap", folder: "implementation_migration", layer: "implementation_migration", role: "implementation", junction_kind: None },
        ArchiMateElementType { keyword: "grouping", native: "Grouping", folder: "other", layer: "other", role: "composite", junction_kind: None },
        ArchiMateElementType { keyword: "location", native: "Location", folder: "other", layer: "other", role: "composite", junction_kind: None },
        ArchiMateElementType { keyword: "junction", native: "Junction", folder: "other", layer: "other", role: "junction", junction_kind: None },
        ArchiMateElementType { keyword: "andJunction", native: "Junction", folder: "other", layer: "other", role: "junction", junction_kind: Some("and") },
        ArchiMateElementType { keyword: "orJunction", native: "Junction", folder: "other", layer: "other", role: "junction", junction_kind: Some("or") },
    ]
}

/// The ArchiMate relationship types, in the order lookups search them.
pub open spec fn relationship_types() -> Seq<ArchiMateRelationshipType> {
    seq![
        ArchiMateRelationshipType { keyword: "composition", native: "CompositionRelationship", open_group: "Composition", family: "structural" },
        ArchiMateRelationshipType { keyword: "aggregation", native: "AggregationRelationship", open_group: "Aggregation", family: "structural" },
        ArchiMateRelationshipType { keyword: "assignment", native: "AssignmentRelationship", open_group: "Assignment", family: "structural" },
        ArchiMateRelationshipType { keyword: "realization", native: "RealizationRelationship", open_group: "Realization", family: "dependency" },
        ArchiMateRelationshipType { keyword: "serving", native: "ServingRelationship", open_group: "Serving", family: "dependency" },
        ArchiMateRelationshipType { keyword: "access", native: "AccessRelationship", open_group: "Access", family: "dependency" },
        ArchiMateRelationshipType { keyword: "influence", native: "InfluenceRelationship", open_group: "Influence", family: "dependency" },
        ArchiMateRelationshipType { keyword: "triggering", native: "TriggeringRelationship", open_group: "Triggering", family: "dynamic" },
        ArchiMateRelationshipType { keyword: "flow", native: "FlowRelationship", open_group: "Flow", family: "dynamic" },
        ArchiMateRelationshipType { keyword: "specialization", native: "SpecializationRelationship", open_group: "Specialization", family: "other" },
        ArchiMateRelationshipType { keyword: "association", native: "AssociationRelationship", open_group: "Association", family: "other" },
    ]
}

pub fn element_types_vec() -> (v: Vec<ArchiMateElementType>)
    ensures
        v@ == element_types(),
{
    let v = vec![
        ArchiMateElementType { keyword: "resource", native: "Resource", folder: "strategy", layer: "strategy", role: "active", junction_kind: None },
        ArchiMateElementType { keyword: "capability", native: "Capability", folder: "strategy", layer: "strategy", role: "behavior", junction_kind: None },
        ArchiMateElementType { keyword: "valueStream", native: "ValueStream", folder: "strategy", layer: "strategy", role: "behavior", junction_kind: None },
        ArchiMateElementType { keyword: "courseOfAction", native: "CourseOfAction", folder: "strategy", layer: "strategy", role: "behavior", junction_kind: None },
        ArchiMateElementType { keyword: "businessActor", native: "BusinessActor", folder: "business", layer: "business", role: "active", junction_kind: None },
        ArchiMateElementType { keyword: "businessRole", native: "BusinessRole", folder: "business", layer: "business", role: "active", junction_kind: None },
        ArchiMateElementType { keyword: "businessCollaboration", native: "BusinessCollaboration", folder: "business", layer: "business", role: "active", junction_kind: None },
        ArchiMateElementType { keyword: "businessInterface", native: "BusinessInterface", folder: "business", layer: "business", role: "active", junction_kind: None },
        ArchiMateElementType { keyword: "businessProcess", native: "BusinessProcess", folder: "business", layer: "business", role: "behavior", junction_kind: None },
        ArchiMateElementType { keyword: "businessFunction", native: "BusinessFunction", folder: "business", layer: "business", role: "behavior", junction_kind: None },
        ArchiMateElementType { keyword: "businessInteraction", native: "BusinessInteraction", folder: "business", layer: "business", role: "behavior", junction_kind: None },
        ArchiMateElementType { keyword: "businessEvent", native: "BusinessEvent", folder: "business", layer: "business", role: "behavior", junction_kind: None },
        ArchiMateElementType { keyword: "businessService", native: "BusinessService", folder: "business", layer: "business", role: "behavior", junction_kind: None },
        ArchiMateElementType { keyword: "businessObject", native: "BusinessObject", folder: "business", layer: "business", role: "passive", junction_kind: None },
        ArchiMateElementType { keyword: "contract", native: "Contract", folder: "business", layer: "business", role: "passive", junction_kind: None },
        ArchiMateElementType { keyword: "representation", native: "Representation", folder: "business", layer: "business", role: "passive", junction_kind: None },
        ArchiMateElementType { keyword: "product", native: "Product", folder: "business", layer: "business", role: "passive", junction_kind: None },
        ArchiMateElementType { keyword: "applicationComponent", native: "ApplicationComponent", folder: "application", layer: "application", role: "active", junction_kind: None },
        ArchiMateElementType { keyword: "applicationCollaboration", native: "ApplicationCollaboration", folder: "application", layer: "application", role: "active", junction_kind: None },
        ArchiMateElementType { keyword: "applicationInterface", native: "ApplicationInterface", folder: "application", layer: "application", role: "active", junction_kind: None },
        ArchiMateElementType { keyword: "applicationFunction", native: "ApplicationFunction", folder: "application", layer: "application", role: "behavior", junction_kind: None },
        ArchiMateElementType { keyword: "applicationInteraction", native: "ApplicationInteraction", folder: "application", layer: "application", role: "behavior", junction_kind: None },
        ArchiMateElementType { keyword: "applicationProcess", native: "ApplicationProcess", folder: "application", layer: "application", role: "behavior", junction_kind: None },
        ArchiMateElementType { keyword: "applicationEvent", native: "ApplicationEvent", folder: "application", layer: "application", role: "behavior", junction_kind: None },
        ArchiMateElementType { keyword: "applicationService", native: "ApplicationService", folder: "application", layer: "application", role: "behavior", junction_kind: None },
        ArchiMateElementType { keyword: "dataObject", native: "DataObject", folder: "application", layer: "application", role: "passive", junction_kind: None },
        ArchiMateElementType { keyword: "node", native: "Node", folder: "technology", layer: "technology", role: "active", junction_kind: None },
        ArchiMateElementType { keyword: "device", native: "Device", folder: "technology", layer: "technology", role: "active", junction_kind: None },
        ArchiMateElementType { keyword: "systemSoftware", native: "SystemSoftware", folder: "technology", layer: "technology", role: "active", junction_kind: None },
        ArchiMateElementType { keyword: "technologyCollaboration", native: "TechnologyCollaboration", folder: "technology", layer: "technology", role: "active", junction_kind: None },
        ArchiMateElementType { keyword: "technologyInterface", native: "TechnologyInterface", folder: "technology", layer: "technology", role: "active", junction_kind: None },
        ArchiMateElementType { keyword: "path", native: "Path", folder: "technology", layer: "technology", role: "active", junction_kind: None },
        ArchiMateElementType { keyword: "communicationNetwork", native: "CommunicationNetwork", folder: "technology", layer: "technology", role: "active", junction_kind: None },
        ArchiMateElementType { keyword: "technologyFunction", native: "TechnologyFunction", folder: "technology", layer: "technology", role: "behavior", junction_kind: None },
        ArchiMateElementType { keyword: "technologyProcess", native: "TechnologyProcess", folder: "technology", layer: "technology", role: "behavior", junction_kind: None },
        ArchiMateElementType { keyword: "technologyInteraction", native: "TechnologyInteraction", folder: "technology", layer: "technology", role: "behavior", junction_kind: None },
        ArchiMateElementType { keyword: "technologyEvent", native: "TechnologyEvent", folder: "technology", layer: "technology", role: "behavior", junction_kind: None },
        ArchiMateElementType { keyword: "technologyService", native: "TechnologyService", folder: "technology", layer: "technology", role: "behavior", junction_kind: None },
        ArchiMateElementType { keyword: "artifact", native: "Artifact", folder: "technology", layer: "technology", role: "passive", junction_kind: None },
        ArchiMateElementType { keyword: "equipment", native: "Equipment", folder: "technology", layer: "physical", role: "active", junction_kind: None },
        ArchiMateElementType { keyword: "facility", native: "Facility", folder: "technology", layer: "physical", role: "active", junction_kind: None },
        ArchiMateElementType { keyword: "distributionNetwork", native: "DistributionNetwork", folder: "technology", layer: "physical", role: "active", junction_kind: None },
        ArchiMateElementType { keyword: "material", native: "Material", folder: "technology", layer: "physical", role: "passive", junction_kind: None },
        ArchiMateElementType { keyword: "stakeholder", native: "Stakeholder", folder: "motivation", layer: "motivation", role: "motivation", junction_kind: None },
        ArchiMateElementType { keyword: "driver", native: "Driver", folder: "motivation", layer: "motivation", role: "motivation", junction_kind: None },
        ArchiMateElementType { keyword: "assessment", native: "Assessment", folder: "motivation", layer: "motivation", role: "motivation", junction_kind: None },
        ArchiMateElementType { keyword: "goal", native: "Goal", folder: "motivation", layer: "motivation", role: "motivation", junction_kind: None },
        ArchiMateElementType { keyword: "outcome", native: "Outcome", folder: "motivation", layer: "motivation", role: "motivation", junction_kind: None },
        ArchiMateElementType { keyword: "principle", native: "Principle", folder: "motivation", layer: "motivation", role: "motivation", junction_kind: None },
        ArchiMateElementType { keyword: "requirement", native: "Requirement", folder: "motivation", layer: "motivation", role: "motivation", junction_kind: None },
        ArchiMateElementType { keyword: "constraint", native: "Constraint", folder: "motivation", layer: "motivation", role: "motivation", junction_kind: None },
        ArchiMateElementType { keyword: "meaning", native: "Meaning", folder: "motivation", layer: "motivation", role: "motivation", junction_kind: None },
        ArchiMateElementType { keyword: "value", native: "Value", folder: "motivation", layer: "motivation", role: "motivation", junction_kind: None },
        ArchiMateElementType { keyword: "workPackage", native: "WorkPackage", folder: "implementation_migration", layer: "implementation_migration", role: "implementation", junction_kind: None },
        ArchiMateElementType { keyword: "deliverable", native: "Deliverable", folder: "implementation_migration", layer: "implementation_migration", role: "implementation", junction_kind: None },
        ArchiMateElementType { keyword: "implementationEvent", native: "ImplementationEvent", folder: "implementation_migration", layer: "implementation_migration", role: "implementation", junction_kind: None },
        ArchiMateElementType { keyword: "plateau", native: "Plateau", folder: "implementation_migration", layer: "implementation_migration", role: "implementation", junction_kind: None },
        ArchiMateElementType { keyword: "gap", native: "Gap", folder: "implementation_migration", layer: "implementation_migration", role: "implementation", junction_kind: None },
        ArchiMateElementType { keyword: "grouping", native: "Grouping", folder: "other", layer: "other", role: "composite", junction_kind: None },
        ArchiMateElementType { keyword: "location", native: "Location", folder: "other", layer: "other", role: "composite", junction_kind: None },
        ArchiMateElementType { keyword: "junction", native: "Junction", folder: "other", layer: "other", role: "junction", junction_kind: None },
        ArchiMateElementType { keyword: "andJunction", native: "Junction", folder: "other", layer: "other", role: "junction", junction_kind: Some("and") },
        ArchiMateElementType { keyword: "orJunction", native: "Junction", folder: "other", layer: "other", role: "junction", junction_kind: Some("or") },
    ];
    assert(v@ =~= element_types());
    v
}

pub fn relationship_types_vec() -> (v: Vec<ArchiMateRelationshipType>)
    ensures
        v@ == relationship_types(),
{
    let v = vec![
        ArchiMateRelationshipType { keyword: "composition", native: "CompositionRelationship", open_group: "Composition", family: "structural" },
        ArchiMateRelationshipType { keyword: "aggregation", native: "AggregationRelationship", open_group: "Aggregation", family: "structural" },
        ArchiMateRelationshipType { keyword: "assignment", native: "AssignmentRelationship", open_group: "Assignment", family: "structural" },
        ArchiMateRelationshipType { keyword: "realization", native: "RealizationRelationship", open_group: "Realization", family: "dependency" },
        ArchiMateRelationshipType { keyword: "serving", native: "ServingRelationship", open_group: "Serving", family: "dependency" },
        ArchiMateRelationshipType { keyword: "access", native: "AccessRelationship", open_group: "Access", family: "dependency" },
        ArchiMateRelationshipType { keyword: "influence", native: "InfluenceRelationship", open_group: "Influence", family: "dependency" },
        ArchiMateRelationshipType { keyword: "triggering", native: "TriggeringRelationship", open_group: "Triggering", family: "dynamic" },
        ArchiMateRelationshipType { keyword: "flow", native: "FlowRelationship", open_group: "Flow", family: "dynamic" },
        ArchiMateRelationshipType { keyword: "specialization", native: "SpecializationRelationship", open_group: "Specialization", family: "other" },
        ArchiMateRelationshipType { keyword: "association", native: "AssociationRelationship", open_group: "Association", family: "other" },
    ];
    assert(v@ =~= relationship_types());
    v
}

/// The index of the first element type from `i` on whose keyword equals `k` ignoring ASCII case.
pub open spec fn keyword_index_from(k: Seq<char>, i: int) -> Option<int>
    decreases element_types().len() - i,
{
    if i < 0 || i >= element_types().len() {
        None
    } else if eq_ignore_case(k, element_types()[i].keyword@) {
        Some(i)
    } else {
        keyword_index_from(k, i + 1)
    }
}

/// The index of the first element type from `i` on whose native name equals `k` ignoring ASCII case.
pub open spec fn native_index_from(k: Seq<char>, i: int) -> Option<int>
    decreases element_types().len() - i,
{
    if i < 0 || i >= element_types().len() {
        None
    } else if eq_ignore_case(k, element_types()[i].native@) {
        Some(i)
    } else {
        native_index_from(k, i + 1)
    }
}

/// The element type a DSL keyword names (ASCII case ignored).
pub open spec fn spec_type_by_keyword(k: Seq<char>) -> Option<ArchiMateElementType> {
    match keyword_index_from(k, 0) {
        Some(i) => Some(element_types()[i]),
        None => None,
    }
}

/// The element type a native Archi name names (ASCII case ignored).
pub open spec fn spec_type_by_native(k: Seq<char>) -> Option<ArchiMateElementType> {
    match native_index_from(k, 0) {
        Some(i) => Some(element_types()[i]),
        None => None,
    }
}

pub fn archimate_element_type_by_keyword(keyword: &str) -> (r: Option<ArchiMateElementType>)
    ensures
        r == spec_type_by_keyword(keyword@),
{
    let table = element_types_vec();
    let mut i: usize = 0;
    while i < table.len()
        invariant
            table@ == element_types(),
            i <= table.len(),
            keyword_index_from(keyword@, 0) == keyword_index_from(keyword@, i as int),
        decreases table.len() - i,
    {
        if ieq(keyword, table[i].keyword) {
            return Some(table[i]);
        }
        i = i + 1;
    }
    None
}

pub fn archimate_element_type_by_native(native_type: &str) -> (r: Option<ArchiMateElementType>)
    ensures
        r == spec_type_by_native(native_type@),
{
    let table = element_types_vec();
    let mut i: usize = 0;
    while i < table.len()
        invariant
            table@ == element_types(),
            i <= table.len(),
            native_index_from(native_type@, 0) == native_index_from(native_type@, i as int),
        decreases table.len() - i,
    {
        if ieq(native_type, table[i].native) {
            return Some(table[i]);
        }
        i = i + 1;
    }
    None
}

/// The element kind for an ArchiMate DSL keyword.
pub fn archimate_element_kind(keyword: &str) -> (r: Option<ElementKind>)
    ensures
        r == match spec_type_by_keyword(keyword@) {
            Some(t) => Some(ElementKind::ArchiMate(t.native)),
            None => None,
        },
{
    match archimate_element_type_by_keyword(keyword) {
        Some(t) => Some(ElementKind::ArchiMate(t.native)),
        None => None,
    }
}

/// The DSL keyword for a native Archi element type.
pub fn archimate_element_keyword(native_type: &str) -> (r: Option<&'static str>)
    ensures
        r == match spec_type_by_native(native_type@) { Some(t) => Some(t.keyword), None => None },
{
    match archimate_element_type_by_native(native_type) {
        Some(t) => Some(t.keyword),
        None => None,
    }
}

/// The Archi folder of a native element type.
pub fn archimate_element_folder(native_type: &str) -> (r: Option<&'static str>)
    ensures
        r == match spec_type_by_native(native_type@) { Some(t) => Some(t.folder), None => None },
{
    match archimate_element_type_by_native(native_type) {
        Some(t) => Some(t.folder),
        None => None,
    }
}

/// The ArchiMate layer of a native element type.
pub fn archimate_element_layer(native_type: &str) -> (r: Option<&'static str>)
    ensures
        r == match spec_type_by_native(native_type@) { Some(t) => Some(t.layer), None => None },
{
    match archimate_element_type_by_native(native_type) {
        Some(t) => Some(t.layer),
        None => None,
    }
}

/// The structural role of a native element type.
pub fn archimate_element_role(native_type: &str) -> (r: Option<&'static str>)
    ensures
        r == match spec_type_by_native(native_type@) { Some(t) => Some(t.role), None => None },
{
    match archimate_element_type_by_native(native_type) {
        Some(t) => Some(t.role),
        None => None,
    }
}

/// The default fill colour Archi uses for elements of a folder.
pub open spec fn folder_color(folder: Seq<char>) -> Seq<char> {
    if folder == "business"@ { "#ffffb5"@ }
    else if folder == "technology"@ { "#c9d9ff"@ }
    else if folder == "motivation"@ { "#ccccff"@ }
    else if folder == "strategy"@ { "#f5deaa"@ }
    else if folder == "implementation_migration"@ { "#ffe0e0"@ }
    else if folder == "other"@ { "#eeeeee"@ }
    else { "#b5ffff"@ }
}

pub fn archimate_default_color_for_folder(folder: &str) -> (r: &'static str)
    ensures
        r@ == folder_color(folder@),
{
    proof {
        reveal_strlit("business"); reveal_strlit("technology"); reveal_strlit("motivation");
        reveal_strlit("strategy"); reveal_strlit("implementation_migration"); reveal_strlit("other");
    }
    if seq_eq(folder, "business") { "#ffffb5" }
    else if seq_eq(folder, "technology") { "#c9d9ff" }
    else if seq_eq(folder, "motivation") { "#ccccff" }
    else if seq_eq(folder, "strategy") { "#f5deaa" }
    else if seq_eq(folder, "implementation_migration") { "#ffe0e0" }
    else if seq_eq(folder, "other") { "#eeeeee" }
    else { "#b5ffff" }
}

/// The default fill colour of a native element type.
pub fn archimate_element_default_color(native_type: &str) -> (r: Option<&'static str>)
    ensures
        match spec_type_by_native(native_type@) {
            Some(t) => r matches Some(c) && c@ == folder_color(t.folder@),
            None => r is None,
        },
{
    match archimate_element_type_by_native(native_type) {
        Some(t) => Some(archimate_default_color_for_folder(t.folder)),
        None => None,
    }
}

/// `s` with every trailing "Relationship" removed.
pub open spec fn strip_relationship_suffix(s: Seq<char>) -> Seq<char>
    decreases s.len(),
{
    if "Relationship"@.len() > 0 && has_suffix(s, "Relationship"@) {
        strip_relationship_suffix(s.take(s.len() - "Relationship"@.len()))
    } else {
        s
    }
}

/// The value the relationship table is matched against: trimmed, without an "archimate:"
/// prefix, without trailing "Relationship".
pub open spec fn compact_relationship(value: Seq<char>) -> Seq<char> {
    let t = trim_ws(value);
    let p = if has_prefix(t, "archimate:"@) { t.skip("archimate:"@.len() as int) } else { t };
    strip_relationship_suffix(p)
}

pub open spec fn relationship_matches(value: Seq<char>, r: ArchiMateRelationshipType) -> bool {
    eq_ignore_case(compact_relationship(value), r.keyword@)
        || eq_ignore_case(value, r.native@)
        || eq_ignore_case(value, r.keyword@)
}

pub open spec fn relationship_index_from(value: Seq<char>, i: int) -> Option<int>
    decreases relationship_types().len() - i,
{
    if i < 0 || i >= relationship_types().len() {
        None
    } else if relationship_matches(value, relationship_types()[i]) {
        Some(i)
    } else {
        relationship_index_from(value, i + 1)
    }
}

/// The relationship type that `value` names, in any of the accepted spellings.
pub open spec fn spec_relationship_info(value: Seq<char>) -> Option<ArchiMateRelationshipType> {
    match relationship_index_from(value, 0) {
        Some(i) => Some(relationship_types()[i]),
        None => None,
    }
}

fn compact_relationship_name(value: &str) -> (r: String)
    ensures
        r@ == compact_relationship(value@),
{
    proof { reveal_strlit("archimate:"); reveal_strlit("Relationship"); }
    let t = trim(value);
    let mut v = chars_of(t.as_str());
    if starts_with(t.as_str(), "archimate:") {
        v = chars_of(string_of(&v.as_slice()[10..v.len()]).as_str());
    }
    let ghost p = v@;
    assert(p == (if has_prefix(trim_ws(value@), "archimate:"@) { trim_ws(value@).skip(10) } else { trim_ws(value@) }));
    let suffix = chars_of("Relationship");
    let mut end = v.len();
    assert(p.take(end as int) =~= p);
    loop
        invariant_except_break
            end <= v.len(),
            v@ == p,
            suffix@ == "Relationship"@,
            suffix@.len() == 12,
            strip_relationship_suffix(p) == strip_relationship_suffix(p.take(end as int)),
        ensures
            end <= v.len(),
            v@ == p,
            strip_relationship_suffix(p) == p.take(end as int),
        decreases end,
    {
        if end < 12 {
            assert(!has_suffix(p.take(end as int), "Relationship"@));
            break;
        }
        let mut k: usize = 0;
        let mut same = true;
        while k < 12
            invariant
                end <= v.len(), 12 <= end, k <= 12,
                suffix@ == "Relationship"@,
                suffix@.len() == 12,
                same == (forall|j: int| 0 <= j < k ==> v@[end - 12 + j] == suffix@[j]),
            decreases 12 - k,
        {
            if v[end - 12 + k] != suffix[k] {
                same = false;
            }
            k = k + 1;
        }
        let ghost q = p.take(end as int);
        if same {
            assert(q.skip(q.len() - 12) =~= "Relationship"@);
            assert(q.take(q.len() - 12) =~= p.take(end - 12));
            end = end - 12;
        } else {
            assert(!has_suffix(q, "Relationship"@)) by {
                let j = choose|j: int| 0 <= j < 12 && v@[end - 12 + j] != suffix@[j];
                assert(q.skip(q.len() - 12)[j] == q[end - 12 + j]);
            }
            break;
        }
    }
    string_of(&v.as_slice()[0..end])
}

/// The native name of the relationship type that `value` names: a keyword, a native name, or
/// either with an "archimate:" prefix or "Relationship" suffix, ASCII case ignored.
pub fn archimate_relationship_type(value: &str) -> (r: Option<&'static str>)
    ensures
        r == match spec_relationship_info(value@) { Some(t) => Some(t.native), None => None },
{
    match archimate_relationship_info(value) {
        Some(t) => Some(t.native),
        None => None,
    }
}

/// The relationship type that `value` names.
pub fn archimate_relationship_info(value: &str) -> (r: Option<ArchiMateRelationshipType>)
    ensures
        r == spec_relationship_info(value@),
{
    let compact = compact_relationship_name(value);
    let table = relationship_types_vec();
    let mut i: usize = 0;
    while i < table.len()
        invariant
            table@ == relationship_types(),
            compact@ == compact_relationship(value@),
            i <= table.len(),
            relationship_index_from(value@, 0) == relationship_index_from(value@, i as int),
        decreases table.len() - i,
    {
        if ieq(compact.as_str(), table[i].keyword) || ieq(value, table[i].native) || ieq(value, table[i].keyword) {
            return Some(table[i]);
        }
        i = i + 1;
    }
    None
}

/// The Open Group exchange name of the relationship type that `native_type` names.
pub fn archimate_relationship_open_group_type(native_type: &str) -> (r: Option<&'static str>)
    ensures
        r == match spec_relationship_info(native_type@) { Some(t) => Some(t.open_group), None => None },
{
    match archimate_relationship_info(native_type) {
        Some(t) => Some(t.open_group),
        None => None,
    }
}

/// The value of the last `type` attribute, else the part after "archimate:" of the first tag
/// that has it.
pub open spec fn relationship_type_source(r: Relationship) -> Option<Seq<char>> {
    if exists|i: int| 0 <= i < r.attributes@.len() && (#[trigger] r.attributes@[i]).key@ == "type"@ {
        let i = choose|i: int| 0 <= i < r.attributes@.len() && (#[trigger] r.attributes@[i]).key@ == "type"@
            && forall|j: int| i < j < r.attributes@.len() ==> (#[trigger] r.attributes@[j]).key@ != "type"@;
        Some(r.attributes@[i].value@)
    } else if exists|i: int| 0 <= i < r.tags@.len() && has_prefix((#[trigger] r.tags@[i])@, "archimate:"@) {
        let i = choose|i: int| 0 <= i < r.tags@.len() && has_prefix((#[trigger] r.tags@[i])@, "archimate:"@)
            && forall|j: int| 0 <= j < i ==> !has_prefix((#[trigger] r.tags@[j])@, "archimate:"@);
        Some(r.tags@[i]@.skip("archimate:"@.len() as int))
    } else {
        None
    }
}

/// The value of the last attribute with key `key`.
pub open spec fn last_attribute(props: Seq<crate::model::Property>, key: Seq<char>) -> Option<Seq<char>> {
    if exists|i: int| 0 <= i < props.len() && (#[trigger] props[i]).key@ == key {
        let i = choose|i: int| 0 <= i < props.len() && (#[trigger] props[i]).key@ == key
            && forall|j: int| i < j < props.len() ==> (#[trigger] props[j]).key@ != key;
        Some(props[i].value@)
    } else {
        None
    }
}

/// The index of the last property with key `key`.
pub fn last_property_index(props: &Vec<crate::model::Property>, key: &str) -> (r: Option<usize>)
    ensures
        match r {
            Some(i) => i < props@.len() && props@[i as int].key@ == key@
                && forall|j: int| i < j < props@.len() ==> (#[trigger] props@[j]).key@ != key@,
            None => forall|j: int| 0 <= j < props@.len() ==> (#[trigger] props@[j]).key@ != key@,
        },
{
    let mut i: usize = props.len();
    while i > 0
        invariant
            i <= props@.len(),
            forall|j: int| i <= j < props@.len() ==> (#[trigger] props@[j]).key@ != key@,
        decreases i,
    {
        if seq_eq(props[i - 1].key.as_str(), key) {
            return Some(i - 1);
        }
        i = i - 1;
    }
    None
}

/// The ArchiMate relationship type of a relationship, from its `type` attribute or an
/// `archimate:` tag.
pub fn relationship_archimate_type(relationship: &Relationship) -> (r: Option<&'static str>)
    ensures
        r == match relationship_type_source(*relationship) {
            Some(v) => match spec_relationship_info(v) { Some(t) => Some(t.native), None => None },
            None => None,
        },
{
    proof { reveal_strlit("type"); reveal_strlit("archimate:"); }
    match last_property_index(&relationship.attributes, "type") {
        Some(i) => {
            assert(relationship_type_source(*relationship) == Some(relationship.attributes@[i as int].value@));
            return archimate_relationship_type(relationship.attributes[i].value.as_str());
        },
        None => {},
    }
    let mut k: usize = 0;
    while k < relationship.tags.len()
        invariant
            k <= relationship.tags@.len(),
            forall|j: int| 0 <= j < k ==> !has_prefix((#[trigger] relationship.tags@[j])@, "archimate:"@),
            forall|j: int| 0 <= j < relationship.attributes@.len() ==> (#[trigger] relationship.attributes@[j]).key@ != "type"@,
            "archimate:"@.len() == 10,
        decreases relationship.tags@.len() - k,
    {
        if starts_with(relationship.tags[k].as_str(), "archimate:") {
            let v = chars_of(relationship.tags[k].as_str());
            let rest = string_of(&v.as_slice()[10..v.len()]);
            proof {
                let tags = relationship.tags@;
                assert(has_prefix(tags[k as int]@, "archimate:"@));
                let i = choose|i: int| 0 <= i < tags.len() && has_prefix((#[trigger] tags[i])@, "archimate:"@)
                    && forall|j: int| 0 <= j < i ==> !has_prefix((#[trigger] tags[j])@, "archimate:"@);
                assert(i == k);
            }
            assert(relationship_type_source(*relationship) == Some(relationship.tags@[k as int]@.skip(10)));
            return archimate_relationship_type(rest.as_str());
        }
        k = k + 1;
    }
    None
}

/// The `access` attribute of a relationship: the value of the last one.
pub fn relationship_access_direction(relationship: &Relationship) -> (r: Option<&str>)
    ensures
        match r {
            Some(v) => last_attribute(relationship.attributes@, "access"@) == Some(v@),
            None => last_attribute(relationship.attributes@, "access"@).is_none(),
        },
{
    proof { reveal_strlit("access"); }
    match last_property_index(&relationship.attributes, "access") {
        Some(i) => Some(relationship.attributes[i].value.as_str()),
        None => None,
    }
}

} // verus!
