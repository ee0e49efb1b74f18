use vstd::prelude::*;

verus! {

/// Stage of a record in its workflow; any stage may follow any other.
#[derive(Debug, Clone, Copy, PartialEq, Eq, Hash, Structural)]
pub enum PRDStatus {
    Draft,
    InReview,
    Approved,
    InDevelopment,
    Testing,
    Implemented,
    Archived,
}

/// Urgency of a record.
#[derive(Debug, Clone, Copy, PartialEq, Eq, Hash, Structural)]
pub enum Priority {
    Low,
    Medium,
    High,
    Critical,
}

impl PRDStatus {
    /// Every status, in workflow order.
    pub open spec fn all() -> Seq<PRDStatus> {
        seq![
            PRDStatus::Draft,
            PRDStatus::InReview,
            PRDStatus::Approved,
            PRDStatus::InDevelopment,
            PRDStatus::Testing,
            PRDStatus::Implemented,
            PRDStatus::Archived,
        ]
    }

    /// The human-readable name of a status.
    pub open spec fn display_spec(self) -> Seq<char> {
        match self {
            PRDStatus::Draft => "Draft"@,
            PRDStatus::InReview => "In Review"@,
            PRDStatus::Approved => "Approved"@,
            PRDStatus::InDevelopment => "In Development"@,
            PRDStatus::Testing => "Testing"@,
            PRDStatus::Implemented => "Implemented"@,
            PRDStatus::Archived => "Archived"@,
        }
    }

    /// The snake-case label of a status in exported data.
    pub open spec fn label_spec(self) -> Seq<char> {
        match self {
            PRDStatus::Draft => "draft"@,
            PRDStatus::InReview => "in_review"@,
            PRDStatus::Approved => "approved"@,
            PRDStatus::InDevelopment => "in_development"@,
            PRDStatus::Testing => "testing"@,
            PRDStatus::Implemented => "implemented"@,
            PRDStatus::Archived => "archived"@,
        }
    }

    /// Human-readable name, such as "In Review".
    pub fn display_name(&self) -> (r: String)
        ensures
            r@ == self.display_spec(),
    {
        let s = match self {
            PRDStatus::Draft => "Draft",
            PRDStatus::InReview => "In Review",
            PRDStatus::Approved => "Approved",
            PRDStatus::InDevelopment => "In Development",
            PRDStatus::Testing => "Testing",
            PRDStatus::Implemented => "Implemented",
            PRDStatus::Archived => "Archived",
        };
        String::from_str(s)
    }

    /// Snake-case label used in exported data, such as "in_review".
    pub fn label(&self) -> (r: String)
        ensures
            r@ == self.label_spec(),
    {
        let s = match self {
            PRDStatus::Draft => "draft",
            PRDStatus::InReview => "in_review",
            PRDStatus::Approved => "approved",
            PRDStatus::InDevelopment => "in_development",
            PRDStatus::Testing => "testing",
            PRDStatus::Implemented => "implemented",
            PRDStatus::Archived => "archived",
        };
        String::from_str(s)
    }
}

impl Priority {
    /// Every priority, from lowest to highest.
    pub open spec fn all() -> Seq<Priority> {
        seq![Priority::Low, Priority::Medium, Priority::High, Priority::Critical]
    }

    /// The human-readable name of a priority.
    pub open spec fn display_spec(self) -> Seq<char> {
        match self {
            Priority::Low => "Low"@,
            Priority::Medium => "Medium"@,
            Priority::High => "High"@,
            Priority::Critical => "Critical"@,
        }
    }

    /// The snake-case label of a priority in exported data.
    pub open spec fn label_spec(self) -> Seq<char> {
        match self {
            Priority::Low => "low"@,
            Priority::Medium => "medium"@,
            Priority::High => "high"@,
            Priority::Critical => "critical"@,
        }
    }

    /// Human-readable name, such as "Critical".
    pub fn display_name(&self) -> (r: String)
        ensures
            r@ == self.display_spec(),
    {
        let s = match self {
            Priority::Low => "Low",
            Priority::Medium => "Medium",
            Priority::High => "High",
            Priority::Critical => "Critical",
        };
        String::from_str(s)
    }

    /// Snake-case label used in exported data, such as "high".
    pub fn label(&self) -> (r: String)
        ensures
            r@ == self.label_spec(),
    {
        let s = match self {
            Priority::Low => "low",
            Priority::Medium => "medium",
            Priority::High => "high",
            Priority::Critical => "critical",
        };
        String::from_str(s)
    }
}

} // verus!
