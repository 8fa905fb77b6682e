//! Static style and script assets for the rendered timeline report. The
//! renderer itself lives outside the library; these strings carry no logic,
//! and each getter returns exactly the fixed text below on every call.

use vstd::prelude::*;

verus! {

/// The text of the style sheet embedded in the rendered timeline page.
pub open spec fn css_styles_text() -> Seq<char> {
    r#"
        body {
            font-family: 'Segoe UI', Tahoma, Geneva, Verdana, sans-serif;
            margin: 0;
            padding: 20px;
            background-color: #f5f5f5;
        }

        .container {
            max-width: 1200px;
            margin: 0 auto;
            background-color: white;
            padding: 20px;
            border-radius: 8px;
            box-shadow: 0 2px 10px rgba(0,0,0,0.1);
        }

        h1 {
            color: #2c3e50;
            text-align: center;
            margin-bottom: 10px;
        }

        .summary {
            text-align: center;
            color: #7f8c8d;
            margin-bottom: 30px;
        }

        .timeline-table {
            width: 100%;
            border-collapse: collapse;
            margin-top: 20px;
            font-size: 14px;
        }

        .timeline-table th {
            background-color: #34495e;
            color: white;
            padding: 12px 8px;
            text-align: left;
            cursor: pointer;
            user-select: none;
        }

        .timeline-table th:hover {
            background-color: #2c3e50;
        }

        .timeline-table th.sortable::after {
            content: " \2195";
            font-size: 12px;
            opacity: 0.7;
        }

        .timeline-table th.sort-asc::after {
            content: " \2191";
        }

        .timeline-table th.sort-desc::after {
            content: " \2193";
        }

        .timeline-table td {
            padding: 8px;
            border-bottom: 1px solid #ecf0f1;
        }

        .timeline-table tr:hover {
            background-color: #f8f9fa;
        }

        .timestamp {
            font-family: 'Courier New', monospace;
            font-size: 12px;
            color: #2c3e50;
        }

        .event-type {
            font-weight: bold;
            color: #e74c3c;
        }

        .description {
            max-width: 400px;
            word-wrap: break-word;
        }

        .source {
            font-family: 'Courier New', monospace;
            font-size: 12px;
            color: #7f8c8d;
        }

        .file-creation { color: #27ae60; }
        .file-modification { color: #f39c12; }
        .file-access { color: #3498db; }
        .mft-change { color: #9b59b6; }
        .user-logon { color: #e74c3c; }
        .service-installation { color: #e67e22; }
        .program-execution { color: #1abc9c; }
    "#@
}

/// The text of the table-sorting script embedded in the rendered timeline
/// page.
pub open spec fn javascript_text() -> Seq<char> {
    r#"
        document.addEventListener('DOMContentLoaded', function() {
            const table = document.getElementById('timeline-table');
            const headers = table.querySelectorAll('th.sortable');

            headers.forEach(header => {
                header.addEventListener('click', function() {
                    const column = this.dataset.sort;
                    const isAsc = this.classList.contains('sort-asc');

                    // Remove all sort classes
                    headers.forEach(h => {
                        h.classList.remove('sort-asc', 'sort-desc');
                    });

                    // Add appropriate sort class
                    this.classList.add(isAsc ? 'sort-desc' : 'sort-asc');

                    // Sort the table
                    sortTable(column, !isAsc);
                });
            });

            function sortTable(column, ascending) {
                const tbody = table.querySelector('tbody');
                const rows = Array.from(tbody.querySelectorAll('tr'));

                rows.sort((a, b) => {
                    const aValue = getCellValue(a, column);
                    const bValue = getCellValue(b, column);

                    if (column === 'timestamp') {
                        return ascending ?
                            new Date(aValue) - new Date(bValue) :
                            new Date(bValue) - new Date(aValue);
                    } else {
                        return ascending ?
                            aValue.localeCompare(bValue) :
                            bValue.localeCompare(aValue);
                    }
                });

                // Reorder rows
                rows.forEach(row => tbody.appendChild(row));
            }

            function getCellValue(row, column) {
                const cellIndex = {
                    'timestamp': 0,
                    'event-type': 1,
                    'description': 2,
                    'source': 3
                };

                return row.cells[cellIndex[column]].textContent.trim();
            }
        });
    "#@
}

/// The style sheet embedded in the rendered timeline page.
pub fn get_css_styles() -> (r: &'static str)
    ensures
        r@ == css_styles_text(),
{
    r#"
        body {
            font-family: 'Segoe UI', Tahoma, Geneva, Verdana, sans-serif;
            margin: 0;
            padding: 20px;
            background-color: #f5f5f5;
        }

        .container {
            max-width: 1200px;
            margin: 0 auto;
            background-color: white;
            padding: 20px;
            border-radius: 8px;
            box-shadow: 0 2px 10px rgba(0,0,0,0.1);
        }

        h1 {
            color: #2c3e50;
            text-align: center;
            margin-bottom: 10px;
        }

        .summary {
            text-align: center;
            color: #7f8c8d;
            margin-bottom: 30px;
        }

        .timeline-table {
            width: 100%;
            border-collapse: collapse;
            margin-top: 20px;
            font-size: 14px;
        }

        .timeline-table th {
            background-color: #34495e;
            color: white;
            padding: 12px 8px;
            text-align: left;
            cursor: pointer;
            user-select: none;
        }

        .timeline-table th:hover {
            background-color: #2c3e50;
        }

        .timeline-table th.sortable::after {
            content: " \2195";
            font-size: 12px;
            opacity: 0.7;
        }

        .timeline-table th.sort-asc::after {
            content: " \2191";
        }

        .timeline-table th.sort-desc::after {
            content: " \2193";
        }

        .timeline-table td {
            padding: 8px;
            border-bottom: 1px solid #ecf0f1;
        }

        .timeline-table tr:hover {
            background-color: #f8f9fa;
        }

        .timestamp {
            font-family: 'Courier New', monospace;
            font-size: 12px;
            color: #2c3e50;
        }

        .event-type {
            font-weight: bold;
            color: #e74c3c;
        }

        .description {
            max-width: 400px;
            word-wrap: break-word;
        }

        .source {
            font-family: 'Courier New', monospace;
            font-size: 12px;
            color: #7f8c8d;
        }

        .file-creation { color: #27ae60; }
        .file-modification { color: #f39c12; }
        .file-access { color: #3498db; }
        .mft-change { color: #9b59b6; }
        .user-logon { color: #e74c3c; }
        .service-installation { color: #e67e22; }
        .program-execution { color: #1abc9c; }
    "#
}

/// The table-sorting script embedded in the rendered timeline page.
pub fn get_javascript() -> (r: &'static str)
    ensures
        r@ == javascript_text(),
{
    r#"
        document.addEventListener('DOMContentLoaded', function() {
            const table = document.getElementById('timeline-table');
            const headers = table.querySelectorAll('th.sortable');

            headers.forEach(header => {
                header.addEventListener('click', function() {
                    const column = this.dataset.sort;
                    const isAsc = this.classList.contains('sort-asc');

                    // Remove all sort classes
                    headers.forEach(h => {
                        h.classList.remove('sort-asc', 'sort-desc');
                    });

                    // Add appropriate sort class
                    this.classList.add(isAsc ? 'sort-desc' : 'sort-asc');

                    // Sort the table
                    sortTable(column, !isAsc);
                });
            });

            function sortTable(column, ascending) {
                const tbody = table.querySelector('tbody');
                const rows = Array.from(tbody.querySelectorAll('tr'));

                rows.sort((a, b) => {
                    const aValue = getCellValue(a, column);
                    const bValue = getCellValue(b, column);

                    if (column === 'timestamp') {
                        return ascending ?
                            new Date(aValue) - new Date(bValue) :
                            new Date(bValue) - new Date(aValue);
                    } else {
                        return ascending ?
                            aValue.localeCompare(bValue) :
                            bValue.localeCompare(aValue);
                    }
                });

                // Reorder rows
                rows.forEach(row => tbody.appendChild(row));
            }

            function getCellValue(row, column) {
                const cellIndex = {
                    'timestamp': 0,
                    'event-type': 1,
                    'description': 2,
                    'source': 3
                };

                return row.cells[cellIndex[column]].textContent.trim();
            }
        });
    "#
}

} // verus!
