//! Columns of the main throughput table.

use vstd::prelude::*;

use crate::lists;
use crate::text;

verus! {

/// Which hardware class a `PortThroughput` row belongs to; one TUI tab each.
#[derive(Clone, Copy, Debug, PartialEq, Eq, Hash, Structural)]
pub enum DeviceClass {
    Rdma,
    Xgmi,
    Nvlink,
}

impl DeviceClass {
    /// The text of a class.
    pub open spec fn text(self) -> Seq<char> {
        match self {
            DeviceClass::Rdma => "RDMA"@,
            DeviceClass::Xgmi => "XGMI"@,
            DeviceClass::Nvlink => "NVLink"@,
        }
    }

    /// The place of a class in the tab bar.
    pub open spec fn place(self) -> int {
        match self {
            DeviceClass::Rdma => 0,
            DeviceClass::Xgmi => 1,
            DeviceClass::Nvlink => 2,
        }
    }

    /// Display name used by the tab bar, header, and table titles.
    pub fn label(&self) -> (r: &'static str)
        ensures
            r@ == self.text(),
    {
        match self {
            DeviceClass::Rdma => "RDMA",
            DeviceClass::Xgmi => "XGMI",
            DeviceClass::Nvlink => "NVLink",
        }
    }
}

impl View for DeviceClass {
    type V = DeviceClass;

    open spec fn view(&self) -> DeviceClass {
        *self
    }
}

impl lists::Ordered for DeviceClass {
    open spec fn less(a: DeviceClass, b: DeviceClass) -> bool {
        a.place() < b.place()
    }

    fn before(&self, other: &Self) -> (r: bool) {
        match (self, other) {
            (DeviceClass::Rdma, DeviceClass::Xgmi) => true,
            (DeviceClass::Rdma, DeviceClass::Nvlink) => true,
            (DeviceClass::Xgmi, DeviceClass::Nvlink) => true,
            _ => false,
        }
    }
}

/// Width of a throughput bar in cells.
pub const BAR_WIDTH: usize = 12;

/// Columns available for the main throughput table.
#[derive(Debug, PartialEq, Eq)]
pub enum TableColumn {
    Device,
    Port,
    TxBar,
    TxGbps,
    RxBar,
    RxGbps,
    TxPps,
    RxPps,
    Drops,
    /// A raw hw counter rate column, keyed by counter name.
    Counter(String),
}

/// What a column is.
pub enum ColumnView {
    Device,
    Port,
    TxBar,
    TxGbps,
    RxBar,
    RxGbps,
    TxPps,
    RxPps,
    Drops,
    Counter(Seq<char>),
}

impl View for TableColumn {
    type V = ColumnView;

    open spec fn view(&self) -> ColumnView {
        match self {
            TableColumn::Device => ColumnView::Device,
            TableColumn::Port => ColumnView::Port,
            TableColumn::TxBar => ColumnView::TxBar,
            TableColumn::TxGbps => ColumnView::TxGbps,
            TableColumn::RxBar => ColumnView::RxBar,
            TableColumn::RxGbps => ColumnView::RxGbps,
            TableColumn::TxPps => ColumnView::TxPps,
            TableColumn::RxPps => ColumnView::RxPps,
            TableColumn::Drops => ColumnView::Drops,
            TableColumn::Counter(name) => ColumnView::Counter(name@),
        }
    }
}

impl Clone for TableColumn {
    fn clone(&self) -> (r: Self)
        ensures
            r@ == self@,
    {
        match self {
            TableColumn::Device => TableColumn::Device,
            TableColumn::Port => TableColumn::Port,
            TableColumn::TxBar => TableColumn::TxBar,
            TableColumn::TxGbps => TableColumn::TxGbps,
            TableColumn::RxBar => TableColumn::RxBar,
            TableColumn::RxGbps => TableColumn::RxGbps,
            TableColumn::TxPps => TableColumn::TxPps,
            TableColumn::RxPps => TableColumn::RxPps,
            TableColumn::Drops => TableColumn::Drops,
            TableColumn::Counter(name) => TableColumn::Counter(name.clone()),
        }
    }
}

/// The name of a column in the picker.
pub open spec fn label_of(c: ColumnView) -> Seq<char> {
    match c {
        ColumnView::Device => "Device"@,
        ColumnView::Port => "Port"@,
        ColumnView::TxBar => "TX ▏"@,
        ColumnView::TxGbps => "TX Gbps"@,
        ColumnView::RxBar => "RX ▏"@,
        ColumnView::RxGbps => "RX Gbps"@,
        ColumnView::TxPps => "TX pps"@,
        ColumnView::RxPps => "RX pps"@,
        ColumnView::Drops => "Drops/s"@,
        ColumnView::Counter(name) => name,
    }
}

/// The heading of a column in the table.
pub open spec fn header_of(c: ColumnView) -> Seq<char> {
    match c {
        ColumnView::TxBar => "TX"@,
        ColumnView::RxBar => "RX"@,
        ColumnView::TxGbps => "Gbps"@,
        ColumnView::RxGbps => "Gbps"@,
        _ => label_of(c),
    }
}

/// The width of a column in cells. A counter column has room for the bytes of
/// its name and two more, counted in 16 bits, and is never narrower than
/// twelve.
pub open spec fn width_of(c: ColumnView) -> int {
    match c {
        ColumnView::Device => 16,
        ColumnView::Port => 6,
        ColumnView::TxBar => 12,
        ColumnView::RxBar => 12,
        ColumnView::TxGbps => 9,
        ColumnView::RxGbps => 9,
        ColumnView::TxPps => 10,
        ColumnView::RxPps => 10,
        ColumnView::Drops => 9,
        ColumnView::Counter(name) => {
            let w = (vstd::utf8::encode_utf8(name).len() + 2) as int % 0x1_0000;
            if w < 12 {
                12
            } else {
                w
            }
        },
    }
}

impl TableColumn {
    pub fn label(&self) -> (r: String)
        ensures
            r@ == label_of(self@),
    {
        match self {
            TableColumn::Device => "Device".to_owned(),
            TableColumn::Port => "Port".to_owned(),
            TableColumn::TxBar => "TX ▏".to_owned(),
            TableColumn::TxGbps => "TX Gbps".to_owned(),
            TableColumn::RxBar => "RX ▏".to_owned(),
            TableColumn::RxGbps => "RX Gbps".to_owned(),
            TableColumn::TxPps => "TX pps".to_owned(),
            TableColumn::RxPps => "RX pps".to_owned(),
            TableColumn::Drops => "Drops/s".to_owned(),
            TableColumn::Counter(name) => name.clone(),
        }
    }

    /// Table-header text: the bar column names the direction ("TX"/"RX")
    /// and the value column next to it is just "Gbps" — no duplication.
    pub fn header_label(&self) -> (r: String)
        ensures
            r@ == header_of(self@),
    {
        match self {
            TableColumn::TxBar => "TX".to_owned(),
            TableColumn::RxBar => "RX".to_owned(),
            TableColumn::TxGbps => "Gbps".to_owned(),
            TableColumn::RxGbps => "Gbps".to_owned(),
            _ => self.label(),
        }
    }

    pub fn width(&self) -> (r: u16)
        ensures
            r == width_of(self@),
    {
        match self {
            TableColumn::Device => 16,
            TableColumn::Port => 6,
            TableColumn::TxBar => BAR_WIDTH as u16,
            TableColumn::RxBar => BAR_WIDTH as u16,
            TableColumn::TxGbps => 9,
            TableColumn::RxGbps => 9,
            TableColumn::TxPps => 10,
            TableColumn::RxPps => 10,
            TableColumn::Drops => 9,
            TableColumn::Counter(name) => {
                let bytes: usize = name.as_str().as_bytes().len();
                assert(bytes == vstd::utf8::encode_utf8(name@).len());
                let len: u16 = (bytes as u64 % 0x1_0000) as u16;
                let w: u16 = len.wrapping_add(2);
                assert(w == (bytes + 2) % 0x1_0000);
                if w < 12 {
                    12
                } else {
                    w
                }
            },
        }
    }

    /// Whether two columns are the same.
    pub fn is(&self, other: &TableColumn) -> (r: bool)
        ensures
            r == (self@ == other@),
    {
        match (self, other) {
            (TableColumn::Device, TableColumn::Device) => true,
            (TableColumn::Port, TableColumn::Port) => true,
            (TableColumn::TxBar, TableColumn::TxBar) => true,
            (TableColumn::TxGbps, TableColumn::TxGbps) => true,
            (TableColumn::RxBar, TableColumn::RxBar) => true,
            (TableColumn::RxGbps, TableColumn::RxGbps) => true,
            (TableColumn::TxPps, TableColumn::TxPps) => true,
            (TableColumn::RxPps, TableColumn::RxPps) => true,
            (TableColumn::Drops, TableColumn::Drops) => true,
            (TableColumn::Counter(a), TableColumn::Counter(b)) => text::same(
                a.as_str(),
                b.as_str(),
            ),
            _ => false,
        }
    }
}

/// All counter names that can be added as extra columns.
pub open spec fn extra_names() -> Seq<Seq<char>> {
    seq![
        "send_bytes"@,
        "send_wrs"@,
        "recv_bytes"@,
        "recv_wrs"@,
        "rdma_write_bytes"@,
        "rdma_write_wrs"@,
        "rdma_write_wr_err"@,
        "rdma_write_recv_bytes"@,
        "rdma_read_bytes"@,
        "rdma_read_wrs"@,
        "rdma_read_wr_err"@,
        "rdma_read_resp_bytes"@,
        "retrans_bytes"@,
        "retrans_pkts"@,
        "retrans_timeout_events"@,
        "unresponsive_remote_events"@,
        "impaired_remote_conn_events"@,
    ]
}

/// All counter names that can be added as extra columns.
pub fn extra_counters() -> (r: Vec<String>)
    ensures
        text::strings(r@) == extra_names(),
{
    let r = vec![
        "send_bytes".to_owned(),
        "send_wrs".to_owned(),
        "recv_bytes".to_owned(),
        "recv_wrs".to_owned(),
        "rdma_write_bytes".to_owned(),
        "rdma_write_wrs".to_owned(),
        "rdma_write_wr_err".to_owned(),
        "rdma_write_recv_bytes".to_owned(),
        "rdma_read_bytes".to_owned(),
        "rdma_read_wrs".to_owned(),
        "rdma_read_wr_err".to_owned(),
        "rdma_read_resp_bytes".to_owned(),
        "retrans_bytes".to_owned(),
        "retrans_pkts".to_owned(),
        "retrans_timeout_events".to_owned(),
        "unresponsive_remote_events".to_owned(),
        "impaired_remote_conn_events".to_owned(),
    ];
    assert(text::strings(r@) =~= extra_names());
    r
}

/// The columns shown at first.
pub open spec fn default_view() -> Seq<ColumnView> {
    seq![
        ColumnView::Device,
        ColumnView::Port,
        ColumnView::TxBar,
        ColumnView::TxGbps,
        ColumnView::RxBar,
        ColumnView::RxGbps,
        ColumnView::TxPps,
        ColumnView::RxPps,
        ColumnView::Drops,
    ]
}

/// All columns that can be shown.
pub open spec fn all_view() -> Seq<ColumnView> {
    default_view() + extra_names().map_values(|n: Seq<char>| ColumnView::Counter(n))
}

/// Returns the default set of visible columns.
pub fn default_columns() -> (r: Vec<TableColumn>)
    ensures
        lists::views(r@) == default_view(),
{
    let r = vec![
        TableColumn::Device,
        TableColumn::Port,
        TableColumn::TxBar,
        TableColumn::TxGbps,
        TableColumn::RxBar,
        TableColumn::RxGbps,
        TableColumn::TxPps,
        TableColumn::RxPps,
        TableColumn::Drops,
    ];
    assert(lists::views(r@) =~= default_view());
    r
}

/// Returns all possible columns (built-in + extra counters).
pub fn all_columns() -> (r: Vec<TableColumn>)
    ensures
        lists::views(r@) == all_view(),
        r@.len() == 26,
{
    let mut cols = default_columns();
    let names = extra_counters();
    let ghost all = all_view();
    let mut i: usize = 0;
    assert(lists::views(cols@) =~= all.take(9));
    while i < names.len()
        invariant
            i <= names.len(),
            names@.len() == 17,
            text::strings(names@) == extra_names(),
            all == all_view(),
            lists::views(cols@) == all.take(9 + i),
            cols@.len() == 9 + i,
        decreases names.len() - i,
    {
        let col = TableColumn::Counter(names[i].clone());
        proof {
            lists::lemma_views_push(cols@, col);
            text::lemma_take_step(all, 9 + i);
            assert(text::strings(names@)[i as int] == names@[i as int]@);
            assert(all[9 + i] == col@);
        }
        cols.push(col);
        i += 1;
    }
    assert(all.take(26) =~= all);
    cols
}

/// Each column has its own name, heading and width.
pub proof fn law_columns_are_labelled()
    ensures
        label_of(ColumnView::Device) == "Device"@,
        label_of(ColumnView::Port) == "Port"@,
        label_of(ColumnView::TxGbps) == "TX Gbps"@,
        label_of(ColumnView::RxGbps) == "RX Gbps"@,
        label_of(ColumnView::TxPps) == "TX pps"@,
        label_of(ColumnView::RxPps) == "RX pps"@,
        label_of(ColumnView::Drops) == "Drops/s"@,
        header_of(ColumnView::TxBar) == "TX"@,
        header_of(ColumnView::RxBar) == "RX"@,
        header_of(ColumnView::TxGbps) == "Gbps"@,
        header_of(ColumnView::RxGbps) == "Gbps"@,
        header_of(ColumnView::TxPps) == "TX pps"@,
        header_of(ColumnView::RxPps) == "RX pps"@,
        width_of(ColumnView::Device) == 16,
        width_of(ColumnView::Port) == 6,
        width_of(ColumnView::TxBar) == 12,
        width_of(ColumnView::RxBar) == 12,
        width_of(ColumnView::TxGbps) == 9,
        width_of(ColumnView::RxGbps) == 9,
        width_of(ColumnView::TxPps) == 10,
        width_of(ColumnView::RxPps) == 10,
        width_of(ColumnView::Drops) == 9,
{
}

/// A counter's column is named and headed by the counter, and wide enough for
/// its name and two more, but never narrower than twelve.
pub proof fn law_counter_columns_fit_their_names(name: Seq<char>)
    requires
        vstd::utf8::encode_utf8(name).len() < 0xffff - 2,
    ensures
        label_of(ColumnView::Counter(name)) == name,
        header_of(ColumnView::Counter(name)) == name,
        width_of(ColumnView::Counter(name)) >= 12,
        width_of(ColumnView::Counter(name)) >= vstd::utf8::encode_utf8(name).len() + 2,
        vstd::utf8::encode_utf8(name).len() >= 10 ==> width_of(ColumnView::Counter(name))
            == vstd::utf8::encode_utf8(name).len() + 2,
{
}

/// The picker offers the columns that are shown at first, then one for each
/// further counter.
pub proof fn law_all_columns_are_offered(i: int)
    ensures
        all_view().len() == default_view().len() + extra_names().len(),
        0 <= i < default_view().len() ==> all_view()[i] == default_view()[i],
        0 <= i < extra_names().len() ==> all_view()[default_view().len() + i]
            == ColumnView::Counter(extra_names()[i]),
{
}

} // verus!
