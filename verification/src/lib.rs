//! An in-memory, tick-driven relational world model: a generational entity
//! store, named parent/child hierarchies over it, a weighted spatial graph
//! with shortest-path queries, and a snapshot extraction layer that turns
//! live state into an immutable tree for presentation.

mod aspects;
mod entities;
mod geom;
mod graph2d;
mod ids;
mod init;
mod numfmt;
mod object;
mod rng;
mod sim;
mod sites;
mod snapshot;
mod spawn;
mod tags;
mod view;

pub use object::Object;
pub use object::ObjectHandle;
pub use object::ObjectId;
pub use object::Value;

pub use tags::Tags;

pub use ids::EntityId;
pub use ids::Handle;
pub use ids::SiteId;

pub use geom::Extents;
pub use geom::Pos;
pub use geom::COORD_LIMIT;
pub use geom::METRIC_SCALE;

pub use graph2d::Graph2D;
pub use graph2d::Neighbour;
pub use graph2d::Node;
pub use graph2d::INFINITE_DISTANCE;
pub use graph2d::MAX_SITES;

pub use entities::all_hierarchies;
pub use entities::Entities;
pub use entities::EntityColor;
pub use entities::EntityData;
pub use entities::Flag;
pub use entities::Flags;
pub use entities::HierarchyLink;
pub use entities::HierarchyLinks;
pub use entities::HierarchyName;
pub use entities::LinkName;
pub use entities::Links;
pub use entities::NameList;
pub use entities::NameLists;
pub use entities::RGB;

pub use sites::SiteData;
pub use sites::Sites;

pub use aspects::AspectData;
pub use aspects::AspectId;
pub use aspects::Aspects;

pub use spawn::clone_prototype;
pub use spawn::spawn_entity;
pub use spawn::Color;
pub use spawn::Looks;
pub use spawn::Name;
pub use spawn::Prototype;
pub use spawn::PrototypeArgs;
pub use spawn::Prototypes;
pub use spawn::SpawnEntity;

pub use rng::rng_from_seed;

pub use sim::Action;
pub use sim::AvailableActions;
pub use sim::Interaction;
pub use sim::Simulation;
pub use sim::TickRequest;
pub use sim::ViewRequest;

pub use numfmt::dec_str;
pub use view::extract;
pub use view::map_view_items;
pub use view::map_view_lines;
pub use view::MapItem;
pub use view::SimView;
