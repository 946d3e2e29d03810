//! Static resources shipped with the site: images and scripts, copied
//! through to their routed location.

use vstd::prelude::*;

verus! {

/// The kinds of resource the site ships.
pub enum ResourceType {
    SVG,
    PNG,
    JS { is_global_script: bool },
}

impl Clone for ResourceType {
    fn clone(&self) -> (r: Self)
        ensures
            r == *self,
    {
        match self {
            ResourceType::SVG => ResourceType::SVG,
            ResourceType::PNG => ResourceType::PNG,
            ResourceType::JS { is_global_script } => ResourceType::JS {
                is_global_script: *is_global_script,
            },
        }
    }
}

impl Copy for ResourceType {

}

pub open spec fn spec_resource_ext(t: ResourceType) -> Seq<char> {
    match t {
        ResourceType::SVG => ".svg"@,
        ResourceType::JS { .. } => ".js"@,
        ResourceType::PNG => ".png"@,
    }
}

impl ResourceType {
    /// Whether this resource is a script every page loads.
    pub fn is_global_script(self) -> (r: bool)
        ensures
            r == (self matches ResourceType::JS { is_global_script: true }),
    {
        if let ResourceType::JS { is_global_script } = self {
            is_global_script
        } else {
            false
        }
    }

    /// The file extension this resource is emitted under.
    pub fn extension(self) -> (r: &'static str)
        ensures
            r@ == spec_resource_ext(self),
    {
        match self {
            ResourceType::SVG => ".svg",
            ResourceType::JS { .. } => ".js",
            ResourceType::PNG => ".png",
        }
    }
}

/// One resource: its kind, its document id, and where its bytes live.
pub struct Resource {
    pub resource_type: ResourceType,
    pub id: String,
    pub path: String,
}

impl Resource {
    pub fn new(resource_type: ResourceType, name: String, path: String) -> (r: Self)
        ensures
            r.resource_type == resource_type,
            r.id == name,
            r.path == path,
    {
        Self { resource_type, id: name, path }
    }

    /// A copy of this resource.
    pub fn duplicate(&self) -> (r: Resource)
        ensures
            r.resource_type == self.resource_type,
            r.id@ == self.id@,
            r.path@ == self.path@,
    {
        Resource {
            resource_type: self.resource_type,
            id: self.id.clone(),
            path: self.path.clone(),
        }
    }
}

/// Copies a resource's bytes through to its routed location; the actual file
/// handling happens outside the library.
pub struct ResourceRender(pub String);

/// Stands in for the stylesheet document's contents during the page pass;
/// the real stylesheet is written separately at the end of the build.
pub struct SpecialCaseRender();

impl SpecialCaseRender {
    /// The placeholder line written in the stylesheet document's place.
    pub fn content(&self) -> (r: &'static str)
        ensures
            r@ == "-- This render is special-cased and should be replaced later --\n"@,
    {
        "-- This render is special-cased and should be replaced later --\n"
    }
}

} // verus!
