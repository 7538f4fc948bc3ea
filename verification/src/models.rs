pub mod analysis;
pub mod context_data;
pub mod dataset;
pub mod dataview;
pub mod model;
pub mod plot;
pub mod project;
pub mod project_user_role;
pub mod statistic;
pub mod status;
pub mod user;
pub mod user_refresh_token;

pub use analysis::Analysis;
pub use dataset::Dataset;
pub use dataview::{Dataview, Operation};
pub use model::Model;
pub use plot::{Plot, Type as PlotType};
pub use project::Project;
pub use project_user_role::{ProjectUserRole, Role};
pub use statistic::{Statistic, Type as StatisticType};
pub use status::Status;
pub use user::User;
pub use user_refresh_token::UserRefreshToken;
