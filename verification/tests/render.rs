use tour::error::Error;
use tour::render::Template;
use tour::write::{Escape, TemplWrite};

struct Greeting {
    name: String,
}

impl Template for Greeting {
    fn render_into<W: TemplWrite>(&self, writer: &mut W) -> Result<(), Error> {
        writer.write_str("Hello, ")?;
        Escape(&mut *writer).write_str(&self.name)?;
        writer.write_str("!")
    }
}

struct WithBlock;

impl Template for WithBlock {
    fn render_into<W: TemplWrite>(&self, writer: &mut W) -> Result<(), Error> {
        writer.write_str("<main>body</main>")
    }

    fn render_block_into<W: TemplWrite>(&self, block: &str, writer: &mut W) -> Result<(), Error> {
        match block {
            "Body" => writer.write_str("body"),
            _ => Err(Error::NoBlock),
        }
    }

    fn contains_block(&self, block: &str) -> bool {
        block == "Body"
    }

    fn size_hint(&self) -> (usize, Option<usize>) {
        (17, Some(17))
    }
}

#[test]
fn render_default_methods() {
    let g = Greeting { name: "<you>".to_string() };
    assert_eq!(g.render().unwrap(), "Hello, &ltyou&gt!");
    assert!(matches!(g.render_block("Body"), Err(Error::NoBlock)));
    assert!(!g.contains_block("Body"));
    assert_eq!(g.size_hint(), (0, None));
    assert_eq!(g.size_hint_block("Body"), (0, None));
}

#[test]
fn render_blocks() {
    assert_eq!(WithBlock.render().unwrap(), "<main>body</main>");
    assert_eq!(WithBlock.render_block("Body").unwrap(), "body");
    assert!(matches!(WithBlock.render_block("Other"), Err(Error::NoBlock)));
}
