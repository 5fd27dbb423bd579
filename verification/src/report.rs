//! Where a rendered listing goes, and what goes with it.

use vstd::prelude::*;

verus! {

/// What is to be done with a rendered table.
#[derive(Debug, Clone, PartialEq, Eq)]
pub enum Delivery {
    /// Write the table to the file at `path`, replacing what the file held.
    /// Nothing is printed, and no row count is added.
    ToFile { path: String },
    /// Print the table on the terminal, followed by the number of its rows
    /// where `row_count` holds one.
    ToTerminal { row_count: Option<usize> },
}

/// The mathematical value of a [`Delivery`].
pub enum DeliveryView {
    ToFile { path: Seq<char> },
    ToTerminal { row_count: Option<nat> },
}

impl View for Delivery {
    type V = DeliveryView;

    open spec fn view(&self) -> DeliveryView {
        match self {
            Delivery::ToFile { path } => DeliveryView::ToFile { path: path@ },
            Delivery::ToTerminal { row_count } => DeliveryView::ToTerminal {
                row_count: match row_count {
                    Some(n) => Some(*n as nat),
                    None => None,
                },
            },
        }
    }
}

/// The delivery of a listing of selected records: to the file where a path
/// is given, otherwise to the terminal together with the number of rows.
pub open spec fn delivery_for(output: Option<Seq<char>>, row_count: nat) -> DeliveryView {
    match output {
        Some(path) => DeliveryView::ToFile { path },
        None => DeliveryView::ToTerminal { row_count: Some(row_count) },
    }
}

/// The delivery of an overview: to the file where a path is given, otherwise
/// to the terminal, without a row count.
pub open spec fn overview_delivery_for(output: Option<Seq<char>>) -> DeliveryView {
    match output {
        Some(path) => DeliveryView::ToFile { path },
        None => DeliveryView::ToTerminal { row_count: None },
    }
}

/// Decides where a listing of `row_count` rows goes: to the output file where
/// a path is given, otherwise to the terminal together with the row count.
pub fn plan_delivery(output: Option<String>, row_count: usize) -> (r: Delivery)
    ensures
        r@ == delivery_for(output.deep_view(), row_count as nat),
{
    match output {
        Some(path) => Delivery::ToFile { path },
        None => Delivery::ToTerminal { row_count: Some(row_count) },
    }
}

/// Decides where an overview goes: to the output file where a path is given,
/// otherwise to the terminal.
pub fn plan_overview_delivery(output: Option<String>) -> (r: Delivery)
    ensures
        r@ == overview_delivery_for(output.deep_view()),
{
    match output {
        Some(path) => Delivery::ToFile { path },
        None => Delivery::ToTerminal { row_count: None },
    }
}

} // verus!
