//! Aggregate bill-of-materials for voxel-game blueprints.
//!
//! The library scans game definition documents for block recipes, scans one
//! blueprint document for placed block instances, and sums the component
//! quantities those instances require. XML events are pulled through a thin
//! trusted layer over `quick_xml`; everything downstream of the event stream
//! is verified.

pub mod aggregate;
pub mod blueprint;
pub mod definitions;
pub mod error;
pub mod events;
pub mod quantity;
pub mod table;
pub mod xml;

pub use aggregate::{aggregate, build_report, AggregateReport};
pub use blueprint::{
    apply_aliases, scan_blueprint, BlueprintConfig, BlueprintScan, IdentifierSet,
};
pub use definitions::{extract_definitions, load_recipes, DefinitionConfig, ExtractState};
pub use error::ScanError;
pub use events::XmlEvent;
pub use quantity::parse_quantity;
pub use table::{QuantityMap, RecipeTable};
pub use xml::scan_document;
