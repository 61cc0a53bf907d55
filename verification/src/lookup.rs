use vstd::prelude::*;
use crate::model::{Element, ElementKind, Workspace};
use crate::text::seq_eq;

verus! {

/// `k` is the first element with identifier `id`.
pub open spec fn is_first(elements: Seq<Element>, id: Seq<char>, k: int) -> bool {
    &&& 0 <= k < elements.len()
    &&& elements[k].id@ == id
    &&& forall|j: int| 0 <= j < k ==> (#[trigger] elements[j]).id@ != id
}

/// No element has identifier `id`.
pub open spec fn absent(elements: Seq<Element>, id: Seq<char>) -> bool {
    forall|j: int| 0 <= j < elements.len() ==> (#[trigger] elements[j]).id@ != id
}

/// The index of the first element with identifier `id`, which is what an identifier names.
pub open spec fn found(elements: Seq<Element>, id: Seq<char>) -> Option<int> {
    if exists|k: int| is_first(elements, id, k) {
        Some(choose|k: int| is_first(elements, id, k))
    } else {
        None
    }
}

pub proof fn lemma_first_unique(elements: Seq<Element>, id: Seq<char>, a: int, b: int)
    requires
        is_first(elements, id, a),
        is_first(elements, id, b),
    ensures
        a == b,
{
    if a < b {
        assert(elements[a].id@ != id);
    } else if b < a {
        assert(elements[b].id@ != id);
    }
}

/// The element that `identifier` names: the first one with that identifier.
pub fn find(workspace: &Workspace, identifier: &str) -> (r: Option<usize>)
    ensures
        match r {
            Some(k) => is_first(workspace.elements@, identifier@, k as int)
                && found(workspace.elements@, identifier@) == Some(k as int),
            None => absent(workspace.elements@, identifier@)
                && found(workspace.elements@, identifier@) is None,
        },
{
    let mut k: usize = 0;
    while k < workspace.elements.len()
        invariant
            k <= workspace.elements@.len(),
            forall|j: int| 0 <= j < k ==> (#[trigger] workspace.elements@[j]).id@ != identifier@,
        decreases workspace.elements.len() - k,
    {
        if seq_eq(workspace.elements[k].id.as_str(), identifier) {
            proof {
                assert(is_first(workspace.elements@, identifier@, k as int));
                let c = choose|c: int| is_first(workspace.elements@, identifier@, c);
                lemma_first_unique(workspace.elements@, identifier@, c, k as int);
            }
            return Some(k);
        }
        k = k + 1;
    }
    None
}

/// The identifier of the software system that holds the element at `k`, or the element itself
/// if it is one, following parents at most `fuel` times.
pub open spec fn system_from(elements: Seq<Element>, k: int, fuel: nat) -> Option<Seq<char>>
    decreases fuel,
{
    if fuel == 0 || k < 0 || k >= elements.len() {
        None
    } else if elements[k].kind is SoftwareSystem {
        Some(elements[k].id@)
    } else {
        match elements[k].parent {
            Some(p) => match found(elements, p@) {
                Some(j) => system_from(elements, j, (fuel - 1) as nat),
                None => None,
            },
            None => None,
        }
    }
}

/// The software system of the element named `id`. Parents are followed at most once per
/// element of the workspace: a longer chain would be a cycle, which holds no system.
pub open spec fn system_of(elements: Seq<Element>, id: Seq<char>) -> Option<Seq<char>> {
    match found(elements, id) {
        Some(k) => system_from(elements, k, elements.len()),
        None => None,
    }
}

/// The identifier of the software system that holds the element named `identifier`.
pub fn software_system_of(workspace: &Workspace, identifier: &str) -> (r: Option<String>)
    ensures
        match r {
            Some(s) => system_of(workspace.elements@, identifier@) == Some(s@),
            None => system_of(workspace.elements@, identifier@) is None,
        },
{
    let ghost elements = workspace.elements@;
    let mut current = find(workspace, identifier);
    let mut fuel: usize = workspace.elements.len();
    let ghost start = current;
    while fuel > 0
        invariant
            elements == workspace.elements@,
            match current {
                Some(k) => (k as int) < elements.len() && system_of(elements, identifier@) == system_from(elements, k as int, fuel as nat),
                None => system_of(elements, identifier@) is None,
            },
        decreases fuel,
    {
        let k = match current {
            Some(k) => k,
            None => {
                return None;
            },
        };
        if matches!(workspace.elements[k].kind, ElementKind::SoftwareSystem) {
            return Some(workspace.elements[k].id.clone());
        }
        match &workspace.elements[k].parent {
            Some(parent) => {
                current = find(workspace, parent.as_str());
            },
            None => {
                return None;
            },
        }
        fuel = fuel - 1;
    }
    None
}

/// The identifier of the deployment environment that holds the element at `k`, or the element
/// itself if it is one, following parents at most `fuel` times.
pub open spec fn environment_from(elements: Seq<Element>, k: int, fuel: nat) -> Option<Seq<char>>
    decreases fuel,
{
    if fuel == 0 || k < 0 || k >= elements.len() {
        None
    } else if elements[k].kind is DeploymentEnvironment {
        Some(elements[k].id@)
    } else {
        match elements[k].parent {
            Some(p) => match found(elements, p@) {
                Some(j) => environment_from(elements, j, (fuel - 1) as nat),
                None => None,
            },
            None => None,
        }
    }
}

/// The identifier of the deployment environment that holds the element at index `k`.
pub fn deployment_environment(workspace: &Workspace, k: usize) -> (r: Option<String>)
    requires
        k < workspace.elements@.len(),
    ensures
        match r {
            Some(s) => environment_from(workspace.elements@, k as int, workspace.elements@.len()) == Some(s@),
            None => environment_from(workspace.elements@, k as int, workspace.elements@.len()) is None,
        },
{
    let ghost elements = workspace.elements@;
    let mut current: Option<usize> = Some(k);
    let mut fuel: usize = workspace.elements.len();
    while fuel > 0
        invariant
            elements == workspace.elements@,
            k < elements.len(),
            match current {
                Some(c) => (c as int) < elements.len() && environment_from(elements, k as int, elements.len()) == environment_from(elements, c as int, fuel as nat),
                None => environment_from(elements, k as int, elements.len()) is None,
            },
        decreases fuel,
    {
        let c = match current {
            Some(c) => c,
            None => {
                return None;
            },
        };
        if matches!(workspace.elements[c].kind, ElementKind::DeploymentEnvironment) {
            return Some(workspace.elements[c].id.clone());
        }
        match &workspace.elements[c].parent {
            Some(parent) => {
                current = find(workspace, parent.as_str());
            },
            None => {
                return None;
            },
        }
        fuel = fuel - 1;
    }
    None
}

/// Whether `id` is `ancestor` or one of the parents reached from the element named `id` is,
/// following parents at most `fuel` times.
pub open spec fn descends_from(elements: Seq<Element>, id: Seq<char>, ancestor: Seq<char>, fuel: nat) -> bool
    decreases fuel,
{
    if id == ancestor {
        true
    } else if fuel == 0 {
        false
    } else {
        match found(elements, id) {
            Some(k) => match elements[k].parent {
                Some(p) => descends_from(elements, p@, ancestor, (fuel - 1) as nat),
                None => false,
            },
            None => false,
        }
    }
}

/// Whether `identifier` is `ancestor` or lies inside it.
pub fn is_descendant_of(workspace: &Workspace, identifier: &str, ancestor: &str) -> (r: bool)
    ensures
        r == descends_from(workspace.elements@, identifier@, ancestor@, workspace.elements@.len()),
{
    let ghost elements = workspace.elements@;
    let mut current = String::from_str(identifier);
    let mut fuel: usize = workspace.elements.len();
    while fuel > 0
        invariant
            elements == workspace.elements@,
            descends_from(elements, identifier@, ancestor@, elements.len())
                == descends_from(elements, current@, ancestor@, fuel as nat),
        decreases fuel,
    {
        if seq_eq(current.as_str(), ancestor) {
            return true;
        }
        let k = match find(workspace, current.as_str()) {
            Some(k) => k,
            None => {
                return false;
            },
        };
        match &workspace.elements[k].parent {
            Some(parent) => {
                current = parent.clone();
            },
            None => {
                return false;
            },
        }
        fuel = fuel - 1;
    }
    seq_eq(current.as_str(), ancestor)
}

/// The word used for an element kind in messages.
pub open spec fn kind_label(kind: ElementKind) -> Seq<char> {
    match kind {
        ElementKind::Person => "person"@,
        ElementKind::SoftwareSystem => "software system"@,
        ElementKind::Container => "container"@,
        ElementKind::Component => "component"@,
        ElementKind::Generic => "element"@,
        ElementKind::DeploymentEnvironment => "deployment environment"@,
        ElementKind::DeploymentGroup => "deployment group"@,
        ElementKind::DeploymentNode => "deployment node"@,
        ElementKind::InfrastructureNode => "infrastructure node"@,
        ElementKind::SoftwareSystemInstance => "software system instance"@,
        ElementKind::ContainerInstance => "container instance"@,
        ElementKind::ArchiMate(_) => "ArchiMate element"@,
    }
}

pub fn element_kind_label(kind: &ElementKind) -> (r: &'static str)
    ensures
        r@ == kind_label(*kind),
{
    proof {
        reveal_strlit("person");
        reveal_strlit("software system");
        reveal_strlit("container");
        reveal_strlit("component");
        reveal_strlit("element");
        reveal_strlit("deployment environment");
        reveal_strlit("deployment group");
        reveal_strlit("deployment node");
        reveal_strlit("infrastructure node");
        reveal_strlit("software system instance");
        reveal_strlit("container instance");
        reveal_strlit("ArchiMate element");
    }
    match kind {
        ElementKind::Person => "person",
        ElementKind::SoftwareSystem => "software system",
        ElementKind::Container => "container",
        ElementKind::Component => "component",
        ElementKind::Generic => "element",
        ElementKind::DeploymentEnvironment => "deployment environment",
        ElementKind::DeploymentGroup => "deployment group",
        ElementKind::DeploymentNode => "deployment node",
        ElementKind::InfrastructureNode => "infrastructure node",
        ElementKind::SoftwareSystemInstance => "software system instance",
        ElementKind::ContainerInstance => "container instance",
        ElementKind::ArchiMate(_) => "ArchiMate element",
    }
}

} // verus!
