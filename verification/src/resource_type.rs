use vstd::prelude::*;
use crate::text::{owned, str_eq};

verus! {

/// The kind of resource a project is.
#[derive(Clone, Copy, Debug, PartialEq, Eq, Structural, Hash)]
pub enum ResourceType {
    Mod,
    ResourcePack,
    Shader,
    Datapack,
    Plugin,
}

/// The identifier of a resource type.
pub open spec fn spec_type_id(t: ResourceType) -> Seq<char> {
    match t {
        ResourceType::Mod => "mod"@,
        ResourceType::ResourcePack => "resourcepack"@,
        ResourceType::Shader => "shader"@,
        ResourceType::Datapack => "datapack"@,
        ResourceType::Plugin => "plugin"@,
    }
}

/// The position of a type when types are sorted by their identifier
/// ("datapack" < "mod" < "plugin" < "resourcepack" < "shader").
pub open spec fn type_rank(t: ResourceType) -> int {
    match t {
        ResourceType::Datapack => 0,
        ResourceType::Mod => 1,
        ResourceType::Plugin => 2,
        ResourceType::ResourcePack => 3,
        ResourceType::Shader => 4,
    }
}

/// The type that a name stands for, if any.
pub open spec fn spec_type_from_name(s: Seq<char>) -> Option<ResourceType> {
    if s == "mod"@ {
        Some(ResourceType::Mod)
    } else if s == "resourcepack"@ || s == "texturepack"@ {
        Some(ResourceType::ResourcePack)
    } else if s == "shader"@ || s == "shaderpack"@ {
        Some(ResourceType::Shader)
    } else if s == "datapack"@ {
        Some(ResourceType::Datapack)
    } else if s == "plugin"@ {
        Some(ResourceType::Plugin)
    } else {
        None
    }
}

pub open spec fn spec_emoji(t: ResourceType) -> Seq<char> {
    match t {
        ResourceType::Mod => "⚒"@,
        ResourceType::ResourcePack => "🖼"@,
        ResourceType::Shader => "✨"@,
        ResourceType::Datapack => "📦"@,
        ResourceType::Plugin => "🔌"@,
    }
}

pub open spec fn spec_display_name(t: ResourceType) -> Seq<char> {
    match t {
        ResourceType::Mod => "Mod"@,
        ResourceType::ResourcePack => "Resource Pack"@,
        ResourceType::Shader => "Shader"@,
        ResourceType::Datapack => "Data Pack"@,
        ResourceType::Plugin => "Plugin"@,
    }
}

/// The folder of a game directory that holds resources of this type.
pub open spec fn spec_game_folder(t: ResourceType) -> Seq<char> {
    match t {
        ResourceType::Mod => "mods"@,
        ResourceType::ResourcePack => "resourcepacks"@,
        ResourceType::Shader => "shaderpacks"@,
        _ => "."@,
    }
}

pub open spec fn spec_file_extension(t: ResourceType) -> Seq<char> {
    match t {
        ResourceType::Mod => "jar"@,
        ResourceType::ResourcePack => "zip"@,
        ResourceType::Shader => "zip"@,
        ResourceType::Datapack => "zip"@,
        ResourceType::Plugin => "jar"@,
    }
}

/// All resource types, in declaration order.
pub fn all_resource_types() -> (r: Vec<ResourceType>)
    ensures
        r@ == seq![
            ResourceType::Mod,
            ResourceType::ResourcePack,
            ResourceType::Shader,
            ResourceType::Datapack,
            ResourceType::Plugin,
        ],
{
    let mut r = Vec::new();
    r.push(ResourceType::Mod);
    r.push(ResourceType::ResourcePack);
    r.push(ResourceType::Shader);
    r.push(ResourceType::Datapack);
    r.push(ResourceType::Plugin);
    r
}

impl ResourceType {
    /// Parses a type name; unknown names give `None`.
    pub fn from_str(s: String) -> (r: Option<ResourceType>)
        ensures
            r == spec_type_from_name(s@),
    {
        let t = s.as_str();
        if str_eq(t, "mod") {
            Some(ResourceType::Mod)
        } else if str_eq(t, "resourcepack") || str_eq(t, "texturepack") {
            Some(ResourceType::ResourcePack)
        } else if str_eq(t, "shader") || str_eq(t, "shaderpack") {
            Some(ResourceType::Shader)
        } else if str_eq(t, "datapack") {
            Some(ResourceType::Datapack)
        } else if str_eq(t, "plugin") {
            Some(ResourceType::Plugin)
        } else {
            None
        }
    }

    pub fn id(&self) -> (r: String)
        ensures
            r@ == spec_type_id(*self),
    {
        match self {
            ResourceType::Mod => owned("mod"),
            ResourceType::ResourcePack => owned("resourcepack"),
            ResourceType::Shader => owned("shader"),
            ResourceType::Datapack => owned("datapack"),
            ResourceType::Plugin => owned("plugin"),
        }
    }

    /// The rank of the type when sorted by identifier.
    pub fn rank(&self) -> (r: u8)
        ensures
            r as int == type_rank(*self),
    {
        match self {
            ResourceType::Datapack => 0,
            ResourceType::Mod => 1,
            ResourceType::Plugin => 2,
            ResourceType::ResourcePack => 3,
            ResourceType::Shader => 4,
        }
    }

    pub fn emoji(&self) -> (r: String)
        ensures
            r@ == spec_emoji(*self),
    {
        match self {
            ResourceType::Mod => owned("⚒"),
            ResourceType::ResourcePack => owned("🖼"),
            ResourceType::Shader => owned("✨"),
            ResourceType::Datapack => owned("📦"),
            ResourceType::Plugin => owned("🔌"),
        }
    }

    pub fn display_name(&self) -> (r: String)
        ensures
            r@ == spec_display_name(*self),
    {
        match self {
            ResourceType::Mod => owned("Mod"),
            ResourceType::ResourcePack => owned("Resource Pack"),
            ResourceType::Shader => owned("Shader"),
            ResourceType::Datapack => owned("Data Pack"),
            ResourceType::Plugin => owned("Plugin"),
        }
    }

    pub fn game_folder(&self) -> (r: String)
        ensures
            r@ == spec_game_folder(*self),
    {
        match self {
            ResourceType::Mod => owned("mods"),
            ResourceType::ResourcePack => owned("resourcepacks"),
            ResourceType::Shader => owned("shaderpacks"),
            _ => owned("."),
        }
    }

    /// The folder of a server that holds resources of this type, if any.
    pub fn server_folder(&self) -> (r: Option<String>)
        ensures
            match *self {
                ResourceType::Plugin => r matches Some(s) && s@ == "plugins"@,
                _ => r is None,
            },
    {
        match self {
            ResourceType::Plugin => Some(owned("plugins")),
            _ => None,
        }
    }

    /// The folder of a world that holds resources of this type, if any.
    pub fn world_folder(&self) -> (r: Option<String>)
        ensures
            match *self {
                ResourceType::Datapack => r matches Some(s) && s@ == "datapacks"@,
                _ => r is None,
            },
    {
        match self {
            ResourceType::Datapack => Some(owned("datapacks")),
            _ => None,
        }
    }

    pub fn file_extension(&self) -> (r: String)
        ensures
            r@ == spec_file_extension(*self),
    {
        match self {
            ResourceType::Mod => owned("jar"),
            ResourceType::ResourcePack => owned("zip"),
            ResourceType::Shader => owned("zip"),
            ResourceType::Datapack => owned("zip"),
            ResourceType::Plugin => owned("jar"),
        }
    }
}

} // verus!
