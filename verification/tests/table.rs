use poxbase::db::{Table, TableItem};
use poxbase::types::Id;

#[derive(Debug, PartialEq, Eq, Clone, Copy)]
struct Item {
    id: Id,
    name: &'static str,
}

impl TableItem for Item {
    fn spec_id(&self) -> Id {
        self.id
    }

    fn id(&self) -> Id {
        self.id
    }
}

#[test]
fn table() {
    let five = Item { id: 5, name: "Five" };
    let nine = Item { id: 9, name: "Nine" };
    let mut table = Table::default();

    assert_eq!(table.entry(nine), &nine);
    assert_eq!(table.entry(five), &five);

    assert_eq!(table.get(0), None);
    assert_eq!(table.get(5), Some(&five));
    assert_eq!(table.get(7), None);
    assert_eq!(table.get(9), Some(&nine));
    assert_eq!(table.get(10), None);

    assert_eq!(table.span(), 10);
    assert_eq!(table.len(), 2);
}
