//! The persisted schema's history: an ordered list of migration steps that
//! the host's persistence layer applies before the store becomes available.
//! The renderer never reads the store; it only ever receives a markdown
//! block's text.

use vstd::prelude::*;
use vstd::string::*;

verus! {

/// Whether a migration step applies a schema change or reverses it.
#[derive(Clone, Copy, PartialEq, Eq, Structural)]
pub enum MigrationKind {
    Up,
    Down,
}

/// One step of the schema history.
pub struct Migration {
    /// The schema version this step establishes.
    pub version: i64,
    /// A short label for the step.
    pub description: String,
    /// The statements the step runs.
    pub sql: String,
    /// Whether the step applies or reverses the change.
    pub kind: MigrationKind,
}

/// The statements of the initial schema: workspaces, their pages, and the
/// pages' markdown blocks, each child ordered by a position field scoped to
/// its parent, with cascading delete and update, plus the lookup indexes.
pub open spec fn initial_schema_sql() -> Seq<char> {
    r#"
                CREATE TABLE IF NOT EXISTS workspaces (
                    id INTEGER PRIMARY KEY AUTOINCREMENT,
                    name TEXT NOT NULL,
                    created_at TIMESTAMP DEFAULT CURRENT_TIMESTAMP
                );

                CREATE TABLE IF NOT EXISTS pages (
                    id INTEGER PRIMARY KEY AUTOINCREMENT,
                    title TEXT NOT NULL,
                    position INTEGER NOT NULL,
                    workspace_id INTEGER NOT NULL,
                    created_at TIMESTAMP DEFAULT CURRENT_TIMESTAMP,
                    FOREIGN KEY(workspace_id) 
                        REFERENCES workspaces(id)
                        ON DELETE CASCADE 
                        ON UPDATE CASCADE
                );

                CREATE TABLE IF NOT EXISTS markdowns (
                    id INTEGER PRIMARY KEY AUTOINCREMENT,
                    content TEXT NOT NULL,
                    position INTEGER NOT NULL,
                    page_id INTEGER NOT NULL,
                    created_at TIMESTAMP DEFAULT CURRENT_TIMESTAMP,
                    FOREIGN KEY(page_id) 
                        REFERENCES pages(id)
                        ON DELETE CASCADE 
                        ON UPDATE CASCADE
                );

                -- Create indexes for better performance
                CREATE INDEX IF NOT EXISTS idx_pages_workspace_id 
                    ON pages(workspace_id);
                
                CREATE INDEX IF NOT EXISTS idx_markdowns_page_id 
                    ON markdowns(page_id);
                
                CREATE INDEX IF NOT EXISTS idx_pages_position 
                    ON pages(workspace_id, position);
                
                CREATE INDEX IF NOT EXISTS idx_markdowns_position 
                    ON markdowns(page_id, position);
            "#@
}

/// The statements that drop the initial schema again.
pub open spec fn drop_schema_sql() -> Seq<char> {
    r#"
                DROP INDEX IF EXISTS idx_markdowns_position;
                DROP INDEX IF EXISTS idx_pages_position;
                DROP INDEX IF EXISTS idx_markdowns_page_id;
                DROP INDEX IF EXISTS idx_pages_workspace_id;
                
                DROP TABLE IF EXISTS markdowns;
                DROP TABLE IF EXISTS pages;
                DROP TABLE IF EXISTS workspaces;
            "#@
}

/// The ordered schema history: version 1 applies the initial schema, version
/// 2 reverses it.
pub fn get_migrations() -> (migrations: Vec<Migration>)
    ensures
        migrations@.len() == 2,
        migrations@[0].version == 1,
        migrations@[0].description@ == "initial_schema"@,
        migrations@[0].sql@ == initial_schema_sql(),
        migrations@[0].kind == MigrationKind::Up,
        migrations@[1].version == 2,
        migrations@[1].description@ == "Drop initial_schema"@,
        migrations@[1].sql@ == drop_schema_sql(),
        migrations@[1].kind == MigrationKind::Down,
{
    let up = Migration {
        version: 1,
        description: String::from_str("initial_schema"),
        sql: String::from_str(
            r#"
                CREATE TABLE IF NOT EXISTS workspaces (
                    id INTEGER PRIMARY KEY AUTOINCREMENT,
                    name TEXT NOT NULL,
                    created_at TIMESTAMP DEFAULT CURRENT_TIMESTAMP
                );

                CREATE TABLE IF NOT EXISTS pages (
                    id INTEGER PRIMARY KEY AUTOINCREMENT,
                    title TEXT NOT NULL,
                    position INTEGER NOT NULL,
                    workspace_id INTEGER NOT NULL,
                    created_at TIMESTAMP DEFAULT CURRENT_TIMESTAMP,
                    FOREIGN KEY(workspace_id) 
                        REFERENCES workspaces(id)
                        ON DELETE CASCADE 
                        ON UPDATE CASCADE
                );

                CREATE TABLE IF NOT EXISTS markdowns (
                    id INTEGER PRIMARY KEY AUTOINCREMENT,
                    content TEXT NOT NULL,
                    position INTEGER NOT NULL,
                    page_id INTEGER NOT NULL,
                    created_at TIMESTAMP DEFAULT CURRENT_TIMESTAMP,
                    FOREIGN KEY(page_id) 
                        REFERENCES pages(id)
                        ON DELETE CASCADE 
                        ON UPDATE CASCADE
                );

                -- Create indexes for better performance
                CREATE INDEX IF NOT EXISTS idx_pages_workspace_id 
                    ON pages(workspace_id);
                
                CREATE INDEX IF NOT EXISTS idx_markdowns_page_id 
                    ON markdowns(page_id);
                
                CREATE INDEX IF NOT EXISTS idx_pages_position 
                    ON pages(workspace_id, position);
                
                CREATE INDEX IF NOT EXISTS idx_markdowns_position 
                    ON markdowns(page_id, position);
            "#,
        ),
        kind: MigrationKind::Up,
    };
    let down = Migration {
        version: 2,
        description: String::from_str("Drop initial_schema"),
        sql: String::from_str(
            r#"
                DROP INDEX IF EXISTS idx_markdowns_position;
                DROP INDEX IF EXISTS idx_pages_position;
                DROP INDEX IF EXISTS idx_markdowns_page_id;
                DROP INDEX IF EXISTS idx_pages_workspace_id;
                
                DROP TABLE IF EXISTS markdowns;
                DROP TABLE IF EXISTS pages;
                DROP TABLE IF EXISTS workspaces;
            "#,
        ),
        kind: MigrationKind::Down,
    };
    let mut migrations: Vec<Migration> = Vec::new();
    migrations.push(up);
    migrations.push(down);
    migrations
}

} // verus!
