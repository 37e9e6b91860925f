//! The page view models: what each page of the serving layer is rendered
//! from. The rendering itself is the embedding's concern; the core only
//! fills these shapes.

use vstd::prelude::*;

use crate::project::ProjectItem;
use crate::views::{LogGettItemView, LogListItemView, ProjectItemView};

verus! {

/// The landing page.
pub struct HomeTemplate {}

/// The data page: the projects the filter control offers.
pub struct DataTemplate {
    pub projects: Vec<ProjectItemView>,
}

/// One page of the record list.
pub struct DataContentsTemplate {
    pub entries: Vec<LogListItemView>,
}

/// One record, shown alone.
pub struct DataContentTemplate {
    pub entry: LogGettItemView,
}

/// The project directory page.
pub struct ProjectsTemplate<'a> {
    pub projects: &'a [ProjectItem],
}

/// The rename form for one project.
pub struct ProjectEditTemplate {
    pub project: ProjectItemView,
}

} // verus!
